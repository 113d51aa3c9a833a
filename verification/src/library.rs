//! The downloads on disk: which chapters count as downloaded, when a
//! cartoon was last downloaded, which chapters are listed and in what
//! order, and the answers about a chapter folder.
use vstd::prelude::*;
use crate::chapter::CartoonChapterInfo;
use crate::json::{
    is_json, json_accepts, json_bool_at, json_bool_field, json_error_of, json_text_at,
    json_text_field, json_value_of, json_with_bool, parse_json_value, set_json_bool,
};
use crate::order::{is_key_order, key_before, key_order, text_less, text_lt, views_of, lemma_text_lt_asymmetric, lemma_text_lt_total, lemma_text_lt_transitive, lemma_text_lt_irreflexive};
use crate::progress::Percent;

verus! {

/// What is known of one chapter folder of a downloaded cartoon.
#[derive(Clone, Debug)]
pub struct ChapterFolder {
    /// The folder's name.
    pub name: String,
    /// The text of its `info.json`; `None` when there is none or it cannot be read.
    pub info: Option<String>,
    /// The record, when `info` reads as a whole `CartoonChapterInfo`.
    pub record: Option<CartoonChapterInfo>,
    /// Whether the video named by the record's `video_file` is on disk with
    /// more than zero bytes.
    pub video_ready: bool,
}

/// A chapter written by an older version, whose record holds no
/// `is_completed` field, counts as complete when it names a video that is
/// on disk with more than zero bytes.
pub open spec fn loose_completed(content: Seq<char>, video_ready: bool) -> bool {
    loose_completed_of(
        json_bool_at(content, "is_completed"@),
        json_text_at(content, "video_file"@) is Some,
        video_ready,
    )
}

/// Whether an older record counts as complete, from what it holds: its
/// `is_completed` boolean when it has one; else whether it names a video
/// and that video is on disk with more than zero bytes.
pub open spec fn loose_completed_of(is_completed: Option<bool>, names_video: bool, video_ready: bool) -> bool {
    match is_completed {
        Some(b) => b,
        None => names_video && video_ready,
    }
}

/// When an older record says its chapter was downloaded: its
/// `download_time`, when the record counts as complete.
pub open spec fn loose_time_of(
    is_completed: Option<bool>,
    names_video: bool,
    video_ready: bool,
    download_time: Option<Seq<char>>,
) -> Option<Seq<char>> {
    if loose_completed_of(is_completed, names_video, video_ready) {
        download_time
    } else {
        None
    }
}

/// The view of an optional string.
pub open spec fn text_view(t: Option<String>) -> Option<Seq<char>> {
    match t {
        Some(s) => Some(s@),
        None => None,
    }
}

/// Whether an older record counts as complete (see `loose_completed_of`).
pub fn loose_record_completed(is_completed: Option<bool>, names_video: bool, video_ready: bool) -> (r: bool)
    ensures
        r == loose_completed_of(is_completed, names_video, video_ready),
{
    match is_completed {
        Some(b) => b,
        None => names_video && video_ready,
    }
}

/// When an older record says its chapter was downloaded (see `loose_time_of`).
pub fn loose_record_time(
    is_completed: Option<bool>,
    names_video: bool,
    video_ready: bool,
    download_time: Option<String>,
) -> (r: Option<String>)
    ensures
        r matches Some(t) ==> loose_time_of(is_completed, names_video, video_ready, text_view(download_time)) == Some(t@),
        r is None <==> loose_time_of(is_completed, names_video, video_ready, text_view(download_time)) is None,
{
    if loose_record_completed(is_completed, names_video, video_ready) {
        download_time
    } else {
        None
    }
}

/// A chapter folder holds a completed download.
pub open spec fn folder_completed(f: ChapterFolder) -> bool {
    match f.info {
        None => false,
        Some(content) => match f.record {
            Some(r) => r.is_completed,
            None => loose_completed(content@, f.video_ready),
        },
    }
}

/// A folder counts as a downloaded chapter: it is not named
/// `cartoon_detail.json` and holds a completed download.
pub open spec fn folder_counts(f: ChapterFolder) -> bool {
    f.name@ != "cartoon_detail.json"@ && folder_completed(f)
}

/// The number of folders that count as downloaded chapters.
pub open spec fn completed_count(folders: Seq<ChapterFolder>) -> nat
    decreases folders.len(),
{
    if folders.len() == 0 {
        0
    } else {
        completed_count(folders.drop_last()) + if folder_counts(folders.last()) {
            1nat
        } else {
            0nat
        }
    }
}

/// When a completed chapter was downloaded, if its record says.
pub open spec fn completed_time(f: ChapterFolder) -> Option<Seq<char>> {
    match f.info {
        None => None,
        Some(content) => match f.record {
            Some(r) => if r.is_completed {
                Some(r.download_time@)
            } else {
                None
            },
            None => loose_time_of(
                json_bool_at(content@, "is_completed"@),
                json_text_at(content@, "video_file"@) is Some,
                f.video_ready,
                json_text_at(content@, "download_time"@),
            ),
        },
    }
}

/// `t` replaces `latest` when nothing is known yet or `t` sorts after it.
pub open spec fn later_time(latest: Seq<char>, t: Seq<char>) -> Seq<char> {
    if latest.len() == 0 || text_lt(latest, t) {
        t
    } else {
        latest
    }
}

/// The latest download time of the completed chapters (empty when there is none).
pub open spec fn latest_time(folders: Seq<ChapterFolder>) -> Seq<char>
    decreases folders.len(),
{
    if folders.len() == 0 {
        Seq::<char>::empty()
    } else {
        let before = latest_time(folders.drop_last());
        match completed_time(folders.last()) {
            Some(t) => later_time(before, t),
            None => before,
        }
    }
}

/// For a chapter written by an older version whose record holds no
/// `is_completed` field: the video file that its record names, which
/// decides whether it is complete.
pub fn loose_video_file(content: &str) -> (r: Option<String>)
    ensures
        json_bool_at(content@, "is_completed"@) is Some ==> r is None,
        json_bool_at(content@, "is_completed"@) is None ==> (r is Some <==> json_text_at(
            content@,
            "video_file"@,
        ) is Some),
        r matches Some(v) ==> json_text_at(content@, "video_file"@) == Some(v@),
{
    match json_bool_field(content, "is_completed") {
        Some(_) => None,
        None => json_text_field(content, "video_file"),
    }
}

/// Whether one chapter folder holds a completed download.
fn completed(f: &ChapterFolder) -> (r: bool)
    ensures
        r == folder_completed(*f),
{
    match &f.info {
        None => false,
        Some(content) => match &f.record {
            Some(rec) => rec.is_completed,
            None => loose_record_completed(
                json_bool_field(content.as_str(), "is_completed"),
                json_text_field(content.as_str(), "video_file").is_some(),
                f.video_ready,
            ),
        },
    }
}

/// The number of downloaded chapters among the chapter folders of a cartoon.
pub fn count_downloaded_cartoon_chapters(folders: &Vec<ChapterFolder>) -> (r: usize)
    ensures
        r == completed_count(folders@),
{
    let mut count: usize = 0;
    let mut i: usize = 0;
    while i < folders.len()
        invariant
            i <= folders@.len(),
            count == completed_count(folders@.take(i as int)),
            count <= i,
        decreases folders.len() - i,
    {
        assert(folders@.take(i + 1).drop_last() == folders@.take(i as int));
        let f = &folders[i];
        let skip = f.name == String::from_str("cartoon_detail.json");
        if !skip && completed(f) {
            count = count + 1;
        }
        i = i + 1;
    }
    assert(folders@.take(folders@.len() as int) == folders@);
    count
}

/// When one completed chapter was downloaded, if its record says.
fn completion_time(f: &ChapterFolder) -> (r: Option<String>)
    ensures
        r matches Some(t) ==> completed_time(*f) == Some(t@),
        r is None <==> completed_time(*f) is None,
{
    match &f.info {
        None => None,
        Some(content) => match &f.record {
            Some(rec) => if rec.is_completed {
                Some(rec.download_time.clone())
            } else {
                None
            },
            None => {
                let time = json_text_field(content.as_str(), "download_time");
                proof {
                    assert(text_view(time) == json_text_at(content@, "download_time"@));
                }
                loose_record_time(
                    json_bool_field(content.as_str(), "is_completed"),
                    json_text_field(content.as_str(), "video_file").is_some(),
                    f.video_ready,
                    time,
                )
            },
        },
    }
}

/// The latest download time of the completed chapters of a cartoon
/// (empty when there is none).
pub fn get_latest_cartoon_download_time(folders: &Vec<ChapterFolder>) -> (r: String)
    ensures
        r@ == latest_time(folders@),
{
    let mut latest = String::new();
    let mut i: usize = 0;
    while i < folders.len()
        invariant
            i <= folders@.len(),
            latest@ == latest_time(folders@.take(i as int)),
        decreases folders.len() - i,
    {
        assert(folders@.take(i + 1).drop_last() == folders@.take(i as int));
        assert(folders@.take(i + 1).last() == folders@[i as int]);
        match completion_time(&folders[i]) {
            Some(t) => {
                if latest.as_str().is_empty() || text_less(latest.as_str(), t.as_str()) {
                    latest = t;
                }
            },
            None => {},
        }
        i = i + 1;
    }
    assert(folders@.take(folders@.len() as int) == folders@);
    latest
}

/// The latest download time is that of a completed chapter (or empty), and
/// no completed chapter's time sorts after it.
pub proof fn lemma_latest_time_is_newest(folders: Seq<ChapterFolder>)
    ensures
        latest_time(folders).len() == 0 || exists|i: int|
            0 <= i < folders.len() && completed_time(#[trigger] folders[i]) == Some(latest_time(folders)),
        forall|i: int|
            0 <= i < folders.len() && #[trigger] completed_time(folders[i]) is Some ==> !text_lt(
                latest_time(folders),
                completed_time(folders[i]).unwrap(),
            ),
    decreases folders.len(),
{
    if folders.len() > 0 {
        let init = folders.drop_last();
        lemma_latest_time_is_newest(init);
        let before = latest_time(init);
        let now = latest_time(folders);
        assert forall|i: int|
            0 <= i < folders.len() && #[trigger] completed_time(folders[i]) is Some implies !text_lt(
            now,
            completed_time(folders[i]).unwrap(),
        ) by {
            let ti = completed_time(folders[i]).unwrap();
            if i < folders.len() - 1 {
                assert(folders[i] == init[i]);
                assert(!text_lt(before, ti));
                match completed_time(folders.last()) {
                    Some(t) => {
                        if before.len() == 0 || text_lt(before, t) {
                            if text_lt(t, ti) {
                                if before.len() == 0 {
                                    // only the empty text does not sort after the empty text
                                    assert(ti.len() == 0);
                                } else {
                                    lemma_text_lt_transitive(before, t, ti);
                                }
                            }
                        }
                    },
                    None => {},
                }
            } else {
                match completed_time(folders.last()) {
                    Some(t) => {
                        assert(t == ti);
                        if before.len() == 0 || text_lt(before, t) {
                            lemma_text_lt_irreflexive(t);
                        } else {
                            if before != t {
                                lemma_text_lt_total(before, t);
                                lemma_text_lt_asymmetric(t, before);
                            } else {
                                lemma_text_lt_irreflexive(t);
                            }
                        }
                    },
                    None => {},
                }
            }
        }
        if now.len() != 0 {
            match completed_time(folders.last()) {
                Some(t) => {
                    if before.len() == 0 || text_lt(before, t) {
                        assert(completed_time(folders[folders.len() - 1]) == Some(now));
                    } else {
                        let i = choose|i: int|
                            0 <= i < init.len() && completed_time(#[trigger] init[i]) == Some(before);
                        assert(folders[i] == init[i]);
                    }
                },
                None => {
                    let i = choose|i: int|
                        0 <= i < init.len() && completed_time(#[trigger] init[i]) == Some(before);
                    assert(folders[i] == init[i]);
                },
            }
        }
    }
}

/// What is done with one chapter folder when listing a cartoon's local chapters.
#[derive(Clone, Copy, Debug)]
pub enum LocalChapterEntry {
    /// Not listed.
    Skip,
    /// Listed as its record stands.
    Keep,
    /// Listed, with `is_completed` set to the given value in its record.
    KeepMarked(bool),
}

/// How a chapter folder is listed: folders named `cartoon_detail.json` or
/// with no name, and folders whose record is missing or no JSON, are not
/// listed; a record with an `is_completed` boolean is listed as it stands;
/// an older record that names a video gets `is_completed` set to whether
/// that video is on disk with more than zero bytes; any other record is
/// listed as it stands.
pub open spec fn local_entry_of(f: ChapterFolder) -> LocalChapterEntry {
    match f.info {
        None => LocalChapterEntry::Skip,
        Some(content) => local_entry_from(
            f.name@,
            json_accepts(content@),
            json_bool_at(content@, "is_completed"@),
            json_text_at(content@, "video_file"@) is Some,
            f.video_ready,
        ),
    }
}

/// How a chapter folder with a record is listed, from what is known of it:
/// not at all when the folder is named `cartoon_detail.json` or has no
/// name, or when its record is no JSON; as it stands when the record has an
/// `is_completed` boolean or names no video; else with `is_completed` set
/// to whether the video it names is on disk with more than zero bytes.
pub open spec fn local_entry_from(
    name: Seq<char>,
    is_json: bool,
    is_completed: Option<bool>,
    names_video: bool,
    video_ready: bool,
) -> LocalChapterEntry {
    if name == "cartoon_detail.json"@ || name.len() == 0 || !is_json {
        LocalChapterEntry::Skip
    } else {
        match is_completed {
            Some(_) => LocalChapterEntry::Keep,
            None => if names_video {
                LocalChapterEntry::KeepMarked(video_ready)
            } else {
                LocalChapterEntry::Keep
            },
        }
    }
}

/// How a chapter folder with a record is listed (see `local_entry_from`).
pub fn local_entry_for(
    name: &str,
    is_json: bool,
    is_completed: Option<bool>,
    names_video: bool,
    video_ready: bool,
) -> (r: LocalChapterEntry)
    ensures
        r == local_entry_from(name@, is_json, is_completed, names_video, video_ready),
{
    if String::from_str(name) == String::from_str("cartoon_detail.json") || name.is_empty() || !is_json {
        return LocalChapterEntry::Skip;
    }
    match is_completed {
        Some(_) => LocalChapterEntry::Keep,
        None => if names_video {
            LocalChapterEntry::KeepMarked(video_ready)
        } else {
            LocalChapterEntry::Keep
        },
    }
}

/// How one chapter folder is listed.
pub fn local_chapter_entry(f: &ChapterFolder) -> (r: LocalChapterEntry)
    ensures
        r == local_entry_of(*f),
{
    match &f.info {
        None => LocalChapterEntry::Skip,
        Some(content) => {
            let text = content.as_str();
            local_entry_for(
                f.name.as_str(),
                is_json(text),
                json_bool_field(text, "is_completed"),
                json_text_field(text, "video_file").is_some(),
                f.video_ready,
            )
        },
    }
}

/// The chapter name in a record, or the empty text when it names none.
pub open spec fn chapter_name_in(f: ChapterFolder) -> Seq<char> {
    match f.info {
        Some(content) => match json_text_at(content@, "chapter_name"@) {
            Some(n) => n,
            None => Seq::<char>::empty(),
        },
        None => Seq::<char>::empty(),
    }
}

/// A listed chapter: the position of its folder and what is set in its record.
#[derive(Clone, Copy, Debug)]
pub struct LocalChapter {
    pub folder: usize,
    pub entry: LocalChapterEntry,
}

/// The positions of the folders that are listed, in folder order.
pub open spec fn listed_positions(folders: Seq<ChapterFolder>) -> Seq<usize>
    decreases folders.len(),
{
    if folders.len() == 0 {
        Seq::<usize>::empty()
    } else {
        let before = listed_positions(folders.drop_last());
        if local_entry_of(folders.last()) is Skip {
            before
        } else {
            before.push((folders.len() - 1) as usize)
        }
    }
}

/// `chapters` lists the listed folders sorted by chapter name; equal names
/// keep folder order.
pub open spec fn is_local_listing(folders: Seq<ChapterFolder>, chapters: Seq<LocalChapter>) -> bool {
    let listed = listed_positions(folders);
    let names = listed.map_values(|p: usize| chapter_name_in(folders[p as int]));
    exists|order: Seq<usize>|
        {
            &&& is_key_order(names, false, order)
            &&& chapters.len() == order.len()
            &&& forall|t: int|
                0 <= t < chapters.len() ==> (#[trigger] chapters[t]).folder == listed[order[t] as int]
                    && chapters[t].entry == local_entry_of(folders[chapters[t].folder as int])
        }
}

/// The local chapters of a cartoon, from its chapter folders: which are
/// listed, what is set in their records, and their order by chapter name.
pub fn get_local_cartoon_chapters(folders: &Vec<ChapterFolder>) -> (r: Vec<LocalChapter>)
    ensures
        is_local_listing(folders@, r@),
{
    let mut listed: Vec<usize> = Vec::new();
    let mut entries: Vec<LocalChapterEntry> = Vec::new();
    let mut names: Vec<String> = Vec::new();
    let mut i: usize = 0;
    while i < folders.len()
        invariant
            i <= folders@.len(),
            listed@ == listed_positions(folders@.take(i as int)),
            entries@.len() == listed@.len(),
            names@.len() == listed@.len(),
            forall|t: int| 0 <= t < listed@.len() ==> #[trigger] listed@[t] < i,
            forall|t: int|
                0 <= t < listed@.len() ==> #[trigger] entries@[t] == local_entry_of(
                    folders@[listed@[t] as int],
                ),
            forall|t: int|
                0 <= t < listed@.len() ==> (#[trigger] names@[t])@ == chapter_name_in(
                    folders@[listed@[t] as int],
                ),
        decreases folders.len() - i,
    {
        assert(folders@.take(i + 1).drop_last() == folders@.take(i as int));
        assert(folders@.take(i + 1).last() == folders@[i as int]);
        let f = &folders[i];
        let entry = local_chapter_entry(f);
        match entry {
            LocalChapterEntry::Skip => {},
            _ => {
                let name = match &f.info {
                    Some(content) => match json_text_field(content.as_str(), "chapter_name") {
                        Some(n) => n,
                        None => String::new(),
                    },
                    None => String::new(),
                };
                listed.push(i);
                entries.push(entry);
                names.push(name);
            },
        }
        i = i + 1;
    }
    assert(folders@.take(folders@.len() as int) == folders@);
    let order = key_order(&names, false);
    let ghost key_views = views_of(names@);
    assert(key_views == listed@.map_values(|p: usize| chapter_name_in(folders@[p as int])));
    let mut out: Vec<LocalChapter> = Vec::new();
    let mut t: usize = 0;
    while t < order.len()
        invariant
            t <= order@.len(),
            is_key_order(key_views, false, order@),
            key_views.len() == listed@.len(),
            entries@.len() == listed@.len(),
            forall|s: int| 0 <= s < listed@.len() ==> #[trigger] listed@[s] < folders@.len(),
            forall|s: int|
                0 <= s < listed@.len() ==> #[trigger] entries@[s] == local_entry_of(
                    folders@[listed@[s] as int],
                ),
            out@.len() == t,
            forall|s: int|
                0 <= s < t ==> (#[trigger] out@[s]).folder == listed@[order@[s] as int]
                    && out@[s].entry == local_entry_of(folders@[out@[s].folder as int]),
        decreases order.len() - t,
    {
        let k = order[t];
        out.push(LocalChapter { folder: listed[k], entry: entries[k] });
        t = t + 1;
    }
    out
}

/// What a folder where a chapter may be kept holds.
#[derive(Clone, Copy, Debug)]
pub enum ChapterDirProbe {
    /// There is no such folder.
    Missing,
    /// The folder holds an `info.json`.
    WithInfo,
    /// The folder holds no `info.json`, and this many entries.
    WithoutInfo { entries: usize },
    /// The folder holds no `info.json` and could not be listed.
    Unreadable,
}

/// Whether a chapter has a download that was left unfinished.
#[derive(Clone, Copy, Debug)]
pub struct IncompleteCartoonDownloadResult {
    pub has_incomplete: bool,
    pub downloaded: Option<u64>,
    pub total: Option<u64>,
    pub percent: Option<Percent>,
}

/// An unfinished download, of unknown extent.
pub open spec fn incomplete_found() -> IncompleteCartoonDownloadResult {
    IncompleteCartoonDownloadResult {
        has_incomplete: true,
        downloaded: Some(0),
        total: None,
        percent: Some(Percent::Whole(0)),
    }
}

/// No unfinished download.
pub open spec fn nothing_incomplete() -> IncompleteCartoonDownloadResult {
    IncompleteCartoonDownloadResult { has_incomplete: false, downloaded: None, total: None, percent: None }
}

/// The answer from the probes of the folders, taken in order from `from`:
/// the first folder without `info.json` that holds entries shows an
/// unfinished download; one that cannot be listed is an error (its
/// position); folders that are missing, hold `info.json`, or are empty are
/// passed over.
pub open spec fn incomplete_answer(probes: Seq<ChapterDirProbe>, from: int) -> Result<IncompleteCartoonDownloadResult, usize>
    decreases probes.len() - from,
{
    if from >= probes.len() || from < 0 {
        Ok(nothing_incomplete())
    } else {
        match probes[from] {
            ChapterDirProbe::WithoutInfo { entries } => if entries > 0 {
                Ok(incomplete_found())
            } else {
                incomplete_answer(probes, from + 1)
            },
            ChapterDirProbe::Unreadable => Err(from as usize),
            _ => incomplete_answer(probes, from + 1),
        }
    }
}

/// Whether a chapter has an unfinished download, from the probes of the
/// folders where it may be kept (in the order of `chapter_dirs`); an error
/// gives the position of the folder that could not be listed.
pub fn check_incomplete_cartoon_download(probes: &Vec<ChapterDirProbe>) -> (r: Result<IncompleteCartoonDownloadResult, usize>)
    ensures
        r == incomplete_answer(probes@, 0),
{
    let mut i: usize = 0;
    while i < probes.len()
        invariant
            i <= probes@.len(),
            incomplete_answer(probes@, 0) == incomplete_answer(probes@, i as int),
        decreases probes.len() - i,
    {
        match probes[i] {
            ChapterDirProbe::WithoutInfo { entries } => {
                if entries > 0 {
                    return Ok(
                        IncompleteCartoonDownloadResult {
                            has_incomplete: true,
                            downloaded: Some(0),
                            total: None,
                            percent: Some(Percent::Whole(0)),
                        },
                    );
                }
            },
            ChapterDirProbe::Unreadable => {
                return Err(i);
            },
            _ => {},
        }
        i = i + 1;
    }
    Ok(IncompleteCartoonDownloadResult { has_incomplete: false, downloaded: None, total: None, percent: None })
}

/// The first position where `v` holds `true`.
pub open spec fn first_true(v: Seq<bool>) -> Option<usize> {
    if exists|i: int| 0 <= i < v.len() && v[i] {
        Some((choose|i: int| 0 <= i < v.len() && v[i] && forall|j: int| 0 <= j < i ==> !v[j]) as usize)
    } else {
        None
    }
}

/// The first position where `v` holds `true`.
fn first_true_position(v: &Vec<bool>) -> (r: Option<usize>)
    ensures
        r matches Some(i) ==> i < v@.len() && v@[i as int] && forall|j: int| 0 <= j < i ==> !v@[j],
        r is None ==> forall|j: int| 0 <= j < v@.len() ==> !v@[j],
        r == first_true(v@),
{
    let mut i: usize = 0;
    while i < v.len()
        invariant
            i <= v@.len(),
            forall|j: int| 0 <= j < i ==> !v@[j],
        decreases v.len() - i,
    {
        if v[i] {
            assert(v@[i as int] && forall|j: int| 0 <= j < i ==> !v@[j]);
            proof {
                let c = choose|k: int| 0 <= k < v@.len() && v@[k] && forall|j: int| 0 <= j < k ==> !v@[j];
                if c < i {
                } else if c > i {
                    assert(!v@[i as int]);
                }
            }
            return Some(i);
        }
        i = i + 1;
    }
    None
}

/// What deleting a chapter answers.
#[derive(Clone, Debug)]
pub struct DeleteChapterResult {
    pub success: bool,
    pub message: String,
}

/// Which folder of a chapter to delete, given which of the folders where it
/// may be kept exist (in the order of `chapter_dirs`): the first that
/// exists; when none does, the error `章节不存在`.
pub fn delete_downloaded_cartoon_chapter(exists: &Vec<bool>) -> (r: Result<usize, String>)
    ensures
        r matches Ok(i) ==> first_true(exists@) == Some(i),
        r matches Err(e) ==> first_true(exists@) is None && e@ == "章节不存在"@,
        r is Ok <==> first_true(exists@) is Some,
{
    match first_true_position(exists) {
        Some(i) => Ok(i),
        None => Err(String::from_str("章节不存在")),
    }
}

/// The answer once a chapter folder was deleted.
pub fn chapter_deleted() -> (r: DeleteChapterResult)
    ensures
        r.success,
        r.message@ == "章节删除成功"@,
{
    DeleteChapterResult { success: true, message: String::from_str("章节删除成功") }
}

/// The cover file names looked for in a cartoon folder, in order.
pub open spec fn cover_names_of() -> Seq<Seq<char>> {
    seq!["cover.jpg"@, "cover.jpeg"@, "cover.png"@, "cover.webp"@]
}

/// The cover file names looked for in a cartoon folder, in order.
pub fn cover_file_names() -> (r: Vec<String>)
    ensures
        views_of(r@) == cover_names_of(),
{
    let r = vec![
        String::from_str("cover.jpg"),
        String::from_str("cover.jpeg"),
        String::from_str("cover.png"),
        String::from_str("cover.webp"),
    ];
    assert(views_of(r@) == cover_names_of());
    r
}

/// Which cover file of a cartoon to show, given which of `cover_file_names`
/// exist: the first that does.
pub fn find_cartoon_cover_file(exists: &Vec<bool>) -> (r: Option<usize>)
    ensures
        r == first_true(exists@),
{
    first_true_position(exists)
}

/// Whether a cartoon folder named `folder_name` is listed, given the ids of
/// the cartoons listed so far: its name must not be empty, and no listed
/// cartoon may carry it as its id.
pub fn should_list_cartoon(listed_uuids: &Vec<String>, folder_name: &str) -> (r: bool)
    ensures
        r == (folder_name@.len() > 0 && !views_of(listed_uuids@).contains(folder_name@)),
{
    if folder_name.is_empty() {
        return false;
    }
    let name = String::from_str(folder_name);
    let mut i: usize = 0;
    while i < listed_uuids.len()
        invariant
            i <= listed_uuids@.len(),
            name@ == folder_name@,
            forall|j: int| 0 <= j < i ==> (#[trigger] listed_uuids@[j])@ != folder_name@,
        decreases listed_uuids.len() - i,
    {
        if listed_uuids[i] == name {
            assert(views_of(listed_uuids@)[i as int] == folder_name@);
            return false;
        }
        i = i + 1;
    }
    assert forall|j: int| 0 <= j < listed_uuids@.len() implies views_of(listed_uuids@)[j] != folder_name@ by {
        assert(views_of(listed_uuids@)[j] == listed_uuids@[j]@);
    }
    true
}

/// The order in which downloaded cartoons are listed: latest download
/// first; equal times keep the order in which the cartoons were found.
pub fn downloaded_cartoon_order(latest_times: &Vec<String>) -> (order: Vec<usize>)
    ensures
        is_key_order(views_of(latest_times@), true, order@),
{
    key_order(latest_times, true)
}

/// Why a chapter folder is not opened on a system without a file explorer
/// to call: `本地章节不存在` when the folder is missing, else
/// `此功能仅支持Windows系统`.
pub fn open_directory_refusal(folder_exists: bool) -> (r: String)
    ensures
        !folder_exists ==> r@ == "本地章节不存在"@,
        folder_exists ==> r@ == "此功能仅支持Windows系统"@,
{
    if !folder_exists {
        String::from_str("本地章节不存在")
    } else {
        String::from_str("此功能仅支持Windows系统")
    }
}

/// A cartoon's details, read from the text of its `cartoon_detail.json`:
/// `动画详情文件不存在` when there is no such file, `读取动画详情失败: ` and
/// the reading error when it cannot be read, else the JSON value of the
/// text, or `解析动画详情失败: ` and serde_json's message when the text is
/// no JSON.
pub fn get_local_cartoon_detail(detail_exists: bool, content: Option<&str>, read_error: &str) -> (r:
    Result<serde_json::Value, String>)
    ensures
        !detail_exists ==> (r matches Err(e) && e@ == "动画详情文件不存在"@),
        detail_exists && content is None ==> (r matches Err(e) && e@ == "读取动画详情失败: "@
            + read_error@),
        detail_exists && content is Some ==> (r is Ok <==> json_accepts(content->0@)),
        detail_exists && content is Some ==> (r matches Ok(v) ==> v == json_value_of(content->0@)),
        detail_exists && content is Some ==> (r matches Err(e) ==> e@ == "解析动画详情失败: "@
            + json_error_of(content->0@)),
{
    if !detail_exists {
        return Err(String::from_str("动画详情文件不存在"));
    }
    match content {
        None => {
            let mut e = String::from_str("读取动画详情失败: ");
            e.append(read_error);
            Err(e)
        },
        Some(c) => match parse_json_value(c) {
            Ok(v) => Ok(v),
            Err(m) => {
                let mut e = String::from_str("解析动画详情失败: ");
                e.append(m.as_str());
                Err(e)
            },
        },
    }
}

/// The id under which a downloaded cartoon is listed, and against which
/// later cartoon folders are compared: the `uuid` string of its detail
/// text, when that text reads as a whole cartoon detail (`detail_parsed`);
/// a cartoon whose details do not read is not listed.
pub fn listed_cartoon_uuid(detail: &str, detail_parsed: bool) -> (r: Option<String>)
    ensures
        !detail_parsed ==> r is None,
        detail_parsed ==> text_view(r) == json_text_at(detail@, "uuid"@),
{
    if detail_parsed {
        json_text_field(detail, "uuid")
    } else {
        None
    }
}

/// Every listed position names a folder that is listed.
pub proof fn lemma_listed_positions_listable(folders: Seq<ChapterFolder>)
    requires
        folders.len() <= usize::MAX,
    ensures
        forall|i: int|
            0 <= i < listed_positions(folders).len() ==> (#[trigger] listed_positions(folders)[i])
                < folders.len() && !(local_entry_of(folders[listed_positions(folders)[i] as int]) is Skip),
    decreases folders.len(),
{
    if folders.len() > 0 {
        let init = folders.drop_last();
        lemma_listed_positions_listable(init);
        let before = listed_positions(init);
        assert forall|i: int| 0 <= i < listed_positions(folders).len() implies (
        #[trigger] listed_positions(folders)[i]) < folders.len() && !(local_entry_of(
            folders[listed_positions(folders)[i] as int],
        ) is Skip) by {
            if i < before.len() {
                assert(listed_positions(folders)[i] == before[i]);
                assert(folders[before[i] as int] == init[before[i] as int]);
            } else {
                assert(listed_positions(folders)[i] == folders.len() - 1);
                assert(folders[folders.len() - 1] == folders.last());
            }
        }
    }
}

/// The record value of a listed chapter: the JSON value of its record,
/// with `is_completed` set when its entry marks it.
pub open spec fn chapter_value_of(f: ChapterFolder, entry: LocalChapterEntry) -> serde_json::Value {
    let v = json_value_of(f.info->0@);
    match entry {
        LocalChapterEntry::KeepMarked(b) => json_with_bool(v, "is_completed"@, b),
        _ => v,
    }
}

/// The records of a cartoon's local chapters, as listed by
/// `get_local_cartoon_chapters`: each the JSON value of its record, with
/// `is_completed` set where the listing marks it.
pub fn local_chapter_values(folders: &Vec<ChapterFolder>) -> (r: Vec<serde_json::Value>)
    ensures
        exists|chapters: Seq<LocalChapter>|
            {
                &&& is_local_listing(folders@, chapters)
                &&& r@.len() == chapters.len()
                &&& forall|t: int|
                    0 <= t < chapters.len() ==> r@[t] == chapter_value_of(
                        folders@[(#[trigger] chapters[t]).folder as int],
                        chapters[t].entry,
                    )
            },
{
    let chapters = get_local_cartoon_chapters(folders);
    let n = folders.len();
    proof {
        assert(folders@.len() == n);
        lemma_listed_positions_listable(folders@);
    }
    let ghost listed = listed_positions(folders@);
    let ghost names = listed.map_values(|p: usize| chapter_name_in(folders@[p as int]));
    let ghost order = choose|order: Seq<usize>|
        {
            &&& is_key_order(names, false, order)
            &&& chapters@.len() == order.len()
            &&& forall|t: int|
                0 <= t < chapters@.len() ==> (#[trigger] chapters@[t]).folder == listed[order[t] as int]
                    && chapters@[t].entry == local_entry_of(folders@[chapters@[t].folder as int])
        };
    let mut values: Vec<serde_json::Value> = Vec::new();
    let mut t: usize = 0;
    while t < chapters.len()
        invariant
            t <= chapters@.len(),
            is_key_order(names, false, order),
            names.len() == listed.len(),
            chapters@.len() == order.len(),
            forall|s: int|
                0 <= s < chapters@.len() ==> (#[trigger] chapters@[s]).folder == listed[order[s] as int]
                    && chapters@[s].entry == local_entry_of(folders@[chapters@[s].folder as int]),
            forall|i: int|
                0 <= i < listed.len() ==> (#[trigger] listed[i]) < folders@.len() && !(local_entry_of(
                    folders@[listed[i] as int],
                ) is Skip),
            values@.len() == t,
            forall|s: int|
                0 <= s < t ==> values@[s] == chapter_value_of(
                    folders@[(#[trigger] chapters@[s]).folder as int],
                    chapters@[s].entry,
                ),
        decreases chapters.len() - t,
    {
        let c = chapters[t];
        assert(order[t as int] < names.len());
        assert(c.folder == listed[order[t as int] as int]);
        let f = &folders[c.folder];
        match &f.info {
            Some(content) => {
                match parse_json_value(content.as_str()) {
                    Ok(v) => {
                        let mut v = v;
                        match c.entry {
                            LocalChapterEntry::KeepMarked(b) => {
                                set_json_bool(&mut v, "is_completed", b);
                            },
                            _ => {},
                        }
                        values.push(v);
                    },
                    Err(_) => {
                        assert(false);
                        return values;
                    },
                }
            },
            None => {
                assert(false);
                return values;
            },
        }
        t = t + 1;
    }
    values
}

/// What is known of one downloaded-cartoon folder. The folders are taken
/// in the order they are found: those of `downloads/cartoons` first, then
/// those of `downloads/anime`.
#[derive(Clone, Debug)]
pub struct CartoonFolder {
    /// The folder's name.
    pub name: String,
    /// The cartoon's id, when its details read as a whole (see `listed_cartoon_uuid`).
    pub uuid: Option<String>,
}

/// The ids of the listed folders `listed`.
pub open spec fn listed_ids(folders: Seq<CartoonFolder>, listed: Seq<usize>) -> Seq<Seq<char>> {
    listed.map_values(|p: usize| folders[p as int].uuid->0@)
}

/// The folders that are listed, in the order they were found: a folder is
/// listed when its name is not empty, no folder listed before it carries
/// its name as id, and its details read.
pub open spec fn listed_cartoons(folders: Seq<CartoonFolder>) -> Seq<usize>
    decreases folders.len(),
{
    if folders.len() == 0 {
        Seq::<usize>::empty()
    } else {
        let before = listed_cartoons(folders.drop_last());
        let f = folders.last();
        if f.name@.len() > 0 && !listed_ids(folders, before).contains(f.name@) && f.uuid is Some {
            before.push((folders.len() - 1) as usize)
        } else {
            before
        }
    }
}

/// The listed positions are increasing and name folders with an id.
pub proof fn lemma_listed_cartoons_bounds(folders: Seq<CartoonFolder>)
    requires
        folders.len() <= usize::MAX,
    ensures
        listed_cartoons(folders).len() <= folders.len(),
        forall|i: int|
            0 <= i < listed_cartoons(folders).len() ==> (#[trigger] listed_cartoons(folders)[i])
                < folders.len() && folders[listed_cartoons(folders)[i] as int].uuid is Some,
        forall|i: int, j: int|
            0 <= i < j < listed_cartoons(folders).len() ==> (#[trigger] listed_cartoons(folders)[i])
                < #[trigger] listed_cartoons(folders)[j],
    decreases folders.len(),
{
    if folders.len() > 0 {
        let init = folders.drop_last();
        lemma_listed_cartoons_bounds(init);
        let before = listed_cartoons(init);
        let now = listed_cartoons(folders);
        assert forall|i: int| 0 <= i < now.len() implies (#[trigger] now[i]) < folders.len()
            && folders[now[i] as int].uuid is Some by {
            if i < before.len() {
                assert(now[i] == before[i]);
                assert(folders[before[i] as int] == init[before[i] as int]);
            } else {
                assert(now[i] == folders.len() - 1);
            }
        }
        assert forall|i: int, j: int| 0 <= i < j < now.len() implies (#[trigger] now[i]) < #[trigger] now[j] by {
            assert(now[i] == before[i]);
            if j < before.len() {
                assert(now[j] == before[j]);
            } else {
                assert(now[j] == folders.len() - 1);
            }
        }
    }
}

/// When every folder's id is its name, no id is listed twice, and of the
/// folders carrying one id the first one found (so one of
/// `downloads/cartoons` before one of `downloads/anime`) is the one listed.
pub proof fn lemma_cartoons_listed_once(folders: Seq<CartoonFolder>)
    requires
        folders.len() <= usize::MAX,
        forall|p: int| 0 <= p < folders.len() && (#[trigger] folders[p]).uuid is Some ==> folders[p].uuid->0@
            == folders[p].name@,
    ensures
        forall|i: int, j: int|
            0 <= i < j < listed_cartoons(folders).len() ==> folders[(#[trigger] listed_cartoons(folders)[i]) as int].uuid->0@
                != folders[(#[trigger] listed_cartoons(folders)[j]) as int].uuid->0@,
        forall|p: int|
            0 <= p < folders.len() && (#[trigger] folders[p]).name@.len() > 0 && folders[p].uuid is Some
                ==> exists|i: int|
                0 <= i < listed_cartoons(folders).len() && listed_cartoons(folders)[i] <= p
                    && folders[(#[trigger] listed_cartoons(folders)[i]) as int].uuid->0@ == folders[p].name@,
    decreases folders.len(),
{
    lemma_listed_cartoons_bounds(folders);
    if folders.len() > 0 {
        let init = folders.drop_last();
        assert forall|p: int| 0 <= p < init.len() && (#[trigger] init[p]).uuid is Some implies init[p].uuid->0@
            == init[p].name@ by {
            assert(init[p] == folders[p]);
        }
        lemma_cartoons_listed_once(init);
        lemma_listed_cartoons_bounds(init);
        let before = listed_cartoons(init);
        let now = listed_cartoons(folders);
        let last = folders.len() - 1;
        assert forall|i: int| 0 <= i < before.len() implies folders[(#[trigger] before[i]) as int] == init[before[i] as int] by {}
        assert(listed_ids(folders, before) =~= listed_ids(init, before));
        assert forall|i: int, j: int|
            0 <= i < j < now.len() implies folders[(#[trigger] now[i]) as int].uuid->0@ != folders[(#[trigger] now[j]) as int].uuid->0@ by {
            assert(now[i] == before[i]);
            if j < before.len() {
                assert(now[j] == before[j]);
            } else {
                assert(now[j] == last);
                assert(listed_ids(folders, before)[i] == folders[before[i] as int].uuid->0@);
                assert(folders[last].uuid->0@ == folders[last].name@);
            }
        }
        assert forall|p: int|
            0 <= p < folders.len() && (#[trigger] folders[p]).name@.len() > 0 && folders[p].uuid is Some implies exists|i: int|
                0 <= i < now.len() && now[i] <= p && folders[(#[trigger] now[i]) as int].uuid->0@ == folders[p].name@ by {
            if p < last {
                assert(init[p] == folders[p]);
                let i = choose|i: int|
                    0 <= i < before.len() && before[i] <= p && init[(#[trigger] before[i]) as int].uuid->0@ == init[p].name@;
                assert(now[i] == before[i]);
            } else {
                if listed_ids(folders, before).contains(folders[p].name@) {
                    let i = choose|i: int| 0 <= i < listed_ids(folders, before).len() && listed_ids(folders, before)[i] == folders[p].name@;
                    assert(now[i] == before[i]);
                } else {
                    assert(now[before.len() as int] == last);
                    assert(folders[last].uuid->0@ == folders[last].name@);
                }
            }
        }
    }
}

/// The latest download times of the listed folders, in the order they were found.
pub open spec fn listed_times(folders: Seq<CartoonFolder>, latest_times: Seq<String>) -> Seq<Seq<char>> {
    listed_cartoons(folders).map_values(|p: usize| latest_times[p as int]@)
}

/// `r` is the listed folders (see `listed_cartoons`), latest download
/// first, equal times in the order they were found.
pub open spec fn is_cartoon_list(folders: Seq<CartoonFolder>, latest_times: Seq<String>, r: Seq<usize>) -> bool {
    exists|order: Seq<usize>|
        #[trigger] is_key_order(listed_times(folders, latest_times), true, order)
            && r == order.map_values(|o: usize| listed_cartoons(folders)[o as int])
}

/// The list of downloaded cartoons holds each cartoon once: when every
/// folder's id is its name, no id occurs twice in the list, and every
/// folder with a name and details has its id in the list, from the first
/// folder found with it (one of `downloads/cartoons` before one of
/// `downloads/anime`).
pub proof fn lemma_cartoon_list_once(folders: Seq<CartoonFolder>, latest_times: Seq<String>, r: Seq<usize>)
    requires
        folders.len() <= usize::MAX,
        is_cartoon_list(folders, latest_times, r),
        forall|p: int| 0 <= p < folders.len() && (#[trigger] folders[p]).uuid is Some ==> folders[p].uuid->0@
            == folders[p].name@,
    ensures
        forall|s: int| 0 <= s < r.len() ==> (#[trigger] r[s]) < folders.len() && folders[r[s] as int].uuid is Some,
        forall|s: int, t: int|
            0 <= s < t < r.len() ==> folders[(#[trigger] r[s]) as int].uuid->0@ != folders[(#[trigger] r[t]) as int].uuid->0@,
        forall|p: int|
            0 <= p < folders.len() && (#[trigger] folders[p]).name@.len() > 0 && folders[p].uuid is Some
                ==> exists|t: int| 0 <= t < r.len() && r[t] <= p && folders[(#[trigger] r[t]) as int].uuid->0@ == folders[p].name@,
{
    let listed = listed_cartoons(folders);
    let keys = listed_times(folders, latest_times);
    let order = choose|order: Seq<usize>|
        #[trigger] is_key_order(keys, true, order) && r == order.map_values(|o: usize| listed[o as int]);
    assert(keys.len() == listed.len());
    assert(r.len() == order.len());
    assert forall|s: int| 0 <= s < r.len() implies (#[trigger] r[s]) < folders.len() && folders[r[s] as int].uuid is Some by {
        lemma_listed_cartoons_bounds(folders);
        assert(r[s] == listed[order[s] as int]);
        assert(order[s] < keys.len());
    }
    assert forall|s: int, t: int|
        0 <= s < t < r.len() implies folders[(#[trigger] r[s]) as int].uuid->0@ != folders[(#[trigger] r[t]) as int].uuid->0@ by {
        assert(r[s] == listed[order[s] as int]);
        assert(r[t] == listed[order[t] as int]);
        assert(key_before(keys, true, order[s] as int, order[t] as int));
        let a = order[s] as int;
        let b = order[t] as int;
        assert(a != b);
        assert(a < listed.len() && b < listed.len());
        lemma_cartoons_listed_once(folders);
        if a < b {
            assert(folders[listed[a] as int].uuid->0@ != folders[listed[b] as int].uuid->0@);
        } else {
            assert(folders[listed[b] as int].uuid->0@ != folders[listed[a] as int].uuid->0@);
        }
    }
    assert forall|p: int|
        0 <= p < folders.len() && (#[trigger] folders[p]).name@.len() > 0 && folders[p].uuid is Some implies exists|t: int|
            0 <= t < r.len() && r[t] <= p && folders[(#[trigger] r[t]) as int].uuid->0@ == folders[p].name@ by {
        lemma_cartoons_listed_once(folders);
        lemma_listed_cartoons_bounds(folders);
        let i = choose|i: int|
            0 <= i < listed.len() && listed[i] <= p && folders[(#[trigger] listed[i]) as int].uuid->0@ == folders[p].name@;
        assert(order.contains(i as usize));
        let t = choose|t: int| 0 <= t < order.len() && order[t] == i as usize;
        assert(r[t] == listed[i]);
    }
}

/// The downloaded cartoons to list, given the folders as found and the
/// latest download time of each: the listed folders (see
/// `listed_cartoons`), latest download first, equal times in the order
/// they were found.
pub fn build_downloaded_cartoon_list(folders: &Vec<CartoonFolder>, latest_times: &Vec<String>) -> (r: Vec<usize>)
    requires
        latest_times@.len() == folders@.len(),
    ensures
        is_cartoon_list(folders@, latest_times@, r@),
{
    let n = folders.len();
    proof {
        assert(folders@.len() == n);
        lemma_listed_cartoons_bounds(folders@);
    }
    let mut listed: Vec<usize> = Vec::new();
    let mut ids: Vec<String> = Vec::new();
    let mut i: usize = 0;
    assert(folders@.take(0) =~= Seq::<CartoonFolder>::empty());
    while i < folders.len()
        invariant
            i <= folders@.len(),
            folders@.len() == n,
            listed@ == listed_cartoons(folders@.take(i as int)),
            views_of(ids@) == listed_ids(folders@, listed@),
            forall|t: int| 0 <= t < listed@.len() ==> #[trigger] listed@[t] < i,
        decreases folders.len() - i,
    {
        let ghost pre = folders@.take(i as int);
        let ghost cur = folders@.take(i + 1);
        proof {
            assert(cur.drop_last() == pre);
            assert(cur.last() == folders@[i as int]);
            lemma_listed_cartoons_bounds(pre);
            assert(listed_ids(cur, listed@) =~= listed_ids(folders@, listed@));
        }
        let f = &folders[i];
        if should_list_cartoon(&ids, f.name.as_str()) {
            match &f.uuid {
                Some(u) => {
                    let ghost old_listed = listed@;
                    let ghost old_ids = ids@;
                    listed.push(i);
                    ids.push(u.clone());
                    proof {
                        assert(u@ == folders@[i as int].uuid->0@);
                        assert(listed@ == old_listed.push(i));
                        assert(ids@ == old_ids.push(ids@[old_ids.len() as int]));
                        assert(views_of(ids@) =~= views_of(old_ids).push(u@));
                        assert(listed_ids(folders@, listed@) =~= listed_ids(folders@, old_listed).push(
                            folders@[i as int].uuid->0@,
                        ));
                    }
                },
                None => {},
            }
        }
        i = i + 1;
    }
    assert(folders@.take(n as int) == folders@);
    let mut keys: Vec<String> = Vec::new();
    let mut k: usize = 0;
    while k < listed.len()
        invariant
            k <= listed@.len(),
            latest_times@.len() == folders@.len(),
            forall|t: int| 0 <= t < listed@.len() ==> #[trigger] listed@[t] < folders@.len(),
            views_of(keys@) == listed@.take(k as int).map_values(|p: usize| latest_times@[p as int]@),
        decreases listed.len() - k,
    {
        let ghost old_keys = keys@;
        keys.push(latest_times[listed[k]].clone());
        proof {
            assert(listed@.take(k + 1) =~= listed@.take(k as int).push(listed@[k as int]));
            assert(views_of(keys@) =~= views_of(old_keys).push(latest_times@[listed@[k as int] as int]@));
            assert(views_of(keys@) =~= listed@.take(k + 1).map_values(|p: usize| latest_times@[p as int]@));
        }
        k = k + 1;
    }
    assert(listed@.take(listed@.len() as int) == listed@);
    let order = downloaded_cartoon_order(&keys);
    let mut out: Vec<usize> = Vec::new();
    let mut t: usize = 0;
    while t < order.len()
        invariant
            t <= order@.len(),
            is_key_order(views_of(keys@), true, order@),
            keys@.len() == listed@.len(),
            out@.len() == t,
            forall|s: int| 0 <= s < t ==> #[trigger] out@[s] == listed@[order@[s] as int],
        decreases order.len() - t,
    {
        out.push(listed[order[t]]);
        t = t + 1;
    }
    proof {
        assert(views_of(keys@) =~= listed_times(folders@, latest_times@));
        assert(out@ =~= order@.map_values(|o: usize| listed_cartoons(folders@)[o as int]));
        assert(is_key_order(listed_times(folders@, latest_times@), true, order@));
    }
    out
}

/// A chapter folder whose record reads as a whole counts as a downloaded
/// chapter exactly when that record says it is completed, whatever the
/// size it gives; and the count of downloaded chapters grows by one for
/// such a folder (not named `cartoon_detail.json`) exactly then.
pub proof fn lemma_record_decides_count(folders: Seq<ChapterFolder>, f: ChapterFolder)
    requires
        f.info is Some,
        f.record is Some,
    ensures
        folder_completed(f) <==> f.record->0.is_completed,
        f.name@ != "cartoon_detail.json"@ ==> completed_count(folders.push(f)) == completed_count(folders) + if f.record->0.is_completed {
            1int
        } else {
            0int
        },
        f.name@ == "cartoon_detail.json"@ ==> completed_count(folders.push(f)) == completed_count(folders),
{
    assert(folders.push(f).drop_last() == folders);
    assert(folders.push(f).last() == f);
}

/// Every chapter whose record reads as a whole and says it is completed
/// takes part in the latest download time, whatever the size it gives:
/// its own time is its record's `download_time`, and the latest time
/// never sorts before it.
pub proof fn lemma_completed_records_take_part(folders: Seq<ChapterFolder>)
    ensures
        forall|p: int|
            0 <= p < folders.len() && (#[trigger] folders[p]).info is Some && folders[p].record is Some
                ==> completed_time(folders[p]) == if folders[p].record->0.is_completed {
                Some(folders[p].record->0.download_time@)
            } else {
                None::<Seq<char>>
            },
        forall|p: int|
            0 <= p < folders.len() && (#[trigger] folders[p]).info is Some && folders[p].record is Some
                && folders[p].record->0.is_completed ==> !text_lt(
                latest_time(folders),
                folders[p].record->0.download_time@,
            ),
{
    lemma_latest_time_is_newest(folders);
    assert forall|p: int|
        0 <= p < folders.len() && (#[trigger] folders[p]).info is Some && folders[p].record is Some
            && folders[p].record->0.is_completed implies !text_lt(
            latest_time(folders),
            folders[p].record->0.download_time@,
        ) by {
        assert(completed_time(folders[p]) is Some);
    }
}

/// Which chapter folders are listed, from what they hold: exactly those
/// with a name other than `cartoon_detail.json` whose record is JSON,
/// whatever its `is_completed` field holds. A listed record with an
/// `is_completed` boolean is listed as it stands; one without it that
/// names a video is marked with whether that video is on disk.
pub proof fn lemma_local_entry_lists_json_records(f: ChapterFolder)
    ensures
        !(local_entry_of(f) is Skip) <==> (f.info is Some && json_accepts(f.info->0@) && f.name@.len() > 0
            && f.name@ != "cartoon_detail.json"@),
        !(local_entry_of(f) is Skip) && json_bool_at(f.info->0@, "is_completed"@) is Some ==> local_entry_of(
            f,
        ) is Keep,
        !(local_entry_of(f) is Skip) && json_bool_at(f.info->0@, "is_completed"@) is None && json_text_at(
            f.info->0@,
            "video_file"@,
        ) is Some ==> local_entry_of(f) == LocalChapterEntry::KeepMarked(f.video_ready),
{
}

/// A folder is listed exactly when it is not passed over.
proof fn lemma_listed_positions_exact(folders: Seq<ChapterFolder>)
    requires
        folders.len() <= usize::MAX,
    ensures
        listed_positions(folders).len() <= folders.len(),
        forall|p: int|
            0 <= p < folders.len() ==> (listed_positions(folders).contains(p as usize) <==> !(local_entry_of(
                #[trigger] folders[p],
            ) is Skip)),
    decreases folders.len(),
{
    lemma_listed_positions_listable(folders);
    if folders.len() > 0 {
        let init = folders.drop_last();
        lemma_listed_positions_exact(init);
        lemma_listed_positions_listable(init);
        let before = listed_positions(init);
        let now = listed_positions(folders);
        let last = folders.len() - 1;
        assert forall|p: int| 0 <= p < folders.len() implies (now.contains(p as usize) <==> !(local_entry_of(
            #[trigger] folders[p],
        ) is Skip)) by {
            if now.contains(p as usize) {
                let i = choose|i: int| 0 <= i < now.len() && now[i] == p as usize;
                assert(now[i] < folders.len());
            }
            if !(local_entry_of(folders[p]) is Skip) {
                if p < last {
                    assert(init[p] == folders[p]);
                    assert(before.contains(p as usize));
                    let i = choose|i: int| 0 <= i < before.len() && before[i] == p as usize;
                    assert(now[i] == before[i]);
                } else {
                    assert(now[before.len() as int] == p as usize);
                }
            }
        }
    }
}

/// The local chapters of a cartoon list each folder with a name other than
/// `cartoon_detail.json` whose record is JSON, whatever its `is_completed`
/// field holds, and no other folder.
pub proof fn lemma_local_listing_lists_json_records(folders: Seq<ChapterFolder>, chapters: Seq<LocalChapter>)
    requires
        folders.len() <= usize::MAX,
        is_local_listing(folders, chapters),
    ensures
        forall|p: int|
            0 <= p < folders.len() ==> ((exists|t: int| 0 <= t < chapters.len() && (#[trigger] chapters[t]).folder == p)
                <==> ((#[trigger] folders[p]).info is Some && json_accepts(folders[p].info->0@) && folders[p].name@.len()
                > 0 && folders[p].name@ != "cartoon_detail.json"@)),
{
    lemma_listed_positions_exact(folders);
    lemma_listed_positions_listable(folders);
    let listed = listed_positions(folders);
    let names = listed.map_values(|p: usize| chapter_name_in(folders[p as int]));
    let order = choose|order: Seq<usize>|
        {
            &&& is_key_order(names, false, order)
            &&& chapters.len() == order.len()
            &&& forall|t: int|
                0 <= t < chapters.len() ==> (#[trigger] chapters[t]).folder == listed[order[t] as int]
                    && chapters[t].entry == local_entry_of(folders[chapters[t].folder as int])
        };
    assert forall|p: int| 0 <= p < folders.len() implies ((exists|t: int|
        0 <= t < chapters.len() && (#[trigger] chapters[t]).folder == p) <==> ((#[trigger] folders[p]).info is Some
        && json_accepts(folders[p].info->0@) && folders[p].name@.len() > 0 && folders[p].name@
        != "cartoon_detail.json"@)) by {
        lemma_local_entry_lists_json_records(folders[p]);
        if exists|t: int| 0 <= t < chapters.len() && (#[trigger] chapters[t]).folder == p {
            let t = choose|t: int| 0 <= t < chapters.len() && (#[trigger] chapters[t]).folder == p;
            assert(order[t] < names.len());
            assert(listed.contains(p as usize)) by {
                assert(listed[order[t] as int] == p as usize);
            }
        }
        if !(local_entry_of(folders[p]) is Skip) {
            assert(listed.contains(p as usize));
            let i = choose|i: int| 0 <= i < listed.len() && listed[i] == p as usize;
            assert(order.contains(i as usize));
            let t = choose|t: int| 0 <= t < order.len() && order[t] == i as usize;
            assert(chapters[t].folder == p);
        }
    }
}

/// Whether a chapter has an unfinished download, from the folders where it
/// may be kept, taken in order: an error names a folder that could not be
/// listed, all folders before it being missing, holding `info.json`, or
/// empty; an unfinished download (0 bytes of unknown total, 0 percent) is
/// a folder without `info.json` that holds entries, all folders before it
/// being passed over as above; and there is nothing unfinished exactly
/// when every folder is passed over, in particular when none exists.
pub proof fn lemma_incomplete_answer_laws(probes: Seq<ChapterDirProbe>)
    requires
        probes.len() <= usize::MAX,
    ensures
        incomplete_answer(probes, 0) matches Err(i) ==> i < probes.len() && probes[i as int] is Unreadable
            && forall|k: int| 0 <= k < i ==> passed_over(#[trigger] probes[k]),
        incomplete_answer(probes, 0) matches Ok(x) ==> (x.has_incomplete ==> x.downloaded == Some(0u64) && x.total is None
            && x.percent == Some(Percent::Whole(0)) && exists|k: int|
            0 <= k < probes.len() && (#[trigger] probes[k] matches ChapterDirProbe::WithoutInfo { entries } && entries > 0)
                && forall|j: int| 0 <= j < k ==> passed_over(#[trigger] probes[j])),
        (forall|k: int| 0 <= k < probes.len() ==> passed_over(#[trigger] probes[k])) <==> (incomplete_answer(
            probes,
            0,
        ) matches Ok(x) && !x.has_incomplete),
        incomplete_answer(probes, 0) matches Ok(x) ==> (!x.has_incomplete ==> x.downloaded is None && x.total is None
            && x.percent is None),
        (forall|k: int| 0 <= k < probes.len() ==> (#[trigger] probes[k]) is Missing) ==> incomplete_answer(probes, 0)
            == Ok::<IncompleteCartoonDownloadResult, usize>(nothing_incomplete()),
{
    lemma_incomplete_answer_from(probes, 0);
}

/// A folder that is passed over when looking for an unfinished download:
/// missing, holding `info.json`, or empty.
pub open spec fn passed_over(p: ChapterDirProbe) -> bool {
    match p {
        ChapterDirProbe::Missing => true,
        ChapterDirProbe::WithInfo => true,
        ChapterDirProbe::WithoutInfo { entries } => entries == 0,
        ChapterDirProbe::Unreadable => false,
    }
}

/// `lemma_incomplete_answer_laws` for the folders from `from` on.
proof fn lemma_incomplete_answer_from(probes: Seq<ChapterDirProbe>, from: int)
    requires
        0 <= from <= probes.len(),
        probes.len() <= usize::MAX,
    ensures
        incomplete_answer(probes, from) matches Err(i) ==> from <= i < probes.len() && probes[i as int] is Unreadable
            && forall|k: int| from <= k < i ==> passed_over(#[trigger] probes[k]),
        incomplete_answer(probes, from) matches Ok(x) ==> (x.has_incomplete ==> x == incomplete_found() && exists|k: int|
            from <= k < probes.len() && (#[trigger] probes[k] matches ChapterDirProbe::WithoutInfo { entries } && entries > 0)
                && forall|j: int| from <= j < k ==> passed_over(#[trigger] probes[j])),
        (forall|k: int| from <= k < probes.len() ==> passed_over(#[trigger] probes[k])) <==> (incomplete_answer(
            probes,
            from,
        ) matches Ok(x) && !x.has_incomplete),
        incomplete_answer(probes, from) matches Ok(x) ==> x == incomplete_found() || x == nothing_incomplete(),
    decreases probes.len() - from,
{
    if from < probes.len() {
        lemma_incomplete_answer_from(probes, from + 1);
        let r = incomplete_answer(probes, from);
        if !passed_over(probes[from]) {
            assert(!(forall|k: int| from <= k < probes.len() ==> passed_over(#[trigger] probes[k])));
        } else {
            assert(r == incomplete_answer(probes, from + 1));
            if forall|k: int| from + 1 <= k < probes.len() ==> passed_over(#[trigger] probes[k]) {
                assert forall|k: int| from <= k < probes.len() implies passed_over(#[trigger] probes[k]) by {
                    if k == from {
                    } else {
                    }
                }
            }
            if r matches Ok(x) && x.has_incomplete {
                let k = choose|k: int|
                    from + 1 <= k < probes.len() && (#[trigger] probes[k] matches ChapterDirProbe::WithoutInfo { entries } && entries > 0)
                        && forall|j: int| from + 1 <= j < k ==> passed_over(#[trigger] probes[j]);
                assert(forall|j: int| from <= j < k ==> passed_over(#[trigger] probes[j]));
            }
        }
        if r matches Ok(x) && x.has_incomplete && !passed_over(probes[from]) {
            assert(forall|j: int| from <= j < from ==> passed_over(#[trigger] probes[j]));
        }
    }
}

} // verus!
