//! Downloading one chapter: where it is saved, what its record says, what
//! the caller is answered, and the bookkeeping around a download.
use vstd::prelude::*;
use crate::clock::{
    clock_before_epoch_message, download_time_now, is_download_time, time_out_of_range_message,
};
use crate::order::views_of;
use crate::pause::{
    chapter_pause_key, chapter_progress_key, clear_cartoon_pause_flag, paused_in, pause_key_of,
    progress_key_of, CartoonPauseFlags,
};
use crate::progress::{initial_tracker, start_tracking, stop_tracking, ProgressRegistry};
use crate::text::{chars_of, ends_with, range_ends_with, string_from_chars};

verus! {

/// What the caller asks to download.
#[derive(Clone, Debug)]
pub struct CartoonDownloadInfo {
    pub cartoon_uuid: String,
    pub cartoon_name: String,
    pub chapter_uuid: String,
    pub chapter_name: String,
    pub video_url: String,
    pub cover: String,
}

/// The record (`info.json`) saved beside a chapter's video.
#[derive(Clone, Debug)]
pub struct CartoonChapterInfo {
    pub cartoon_uuid: String,
    pub cartoon_name: String,
    pub chapter_uuid: String,
    pub chapter_name: String,
    pub video_file: String,
    pub file_size: u64,
    pub download_time: String,
    pub is_completed: bool,
}

/// What a download request is answered.
#[derive(Clone, Debug)]
pub struct CartoonDownloadResult {
    pub success: bool,
    pub message: String,
    pub file_path: String,
}

/// The file name of a chapter's video: the chapter name and `.mp4`.
pub open spec fn video_file_name_of(chapter_name: Seq<char>) -> Seq<char> {
    chapter_name + ".mp4"@
}

/// The file name of a chapter's video.
pub fn video_file_name(chapter_name: &str) -> (r: String)
    ensures
        r@ == video_file_name_of(chapter_name@),
{
    let mut r = String::from_str(chapter_name);
    r.append(".mp4");
    r
}

/// The record of a chapter download: the ids and names of the request,
/// the video file name, and the given size, time and completion.
pub open spec fn chapter_info_fields(
    r: CartoonChapterInfo,
    info: CartoonDownloadInfo,
    file_size: u64,
    is_completed: bool,
) -> bool {
    &&& r.cartoon_uuid@ == info.cartoon_uuid@
    &&& r.cartoon_name@ == info.cartoon_name@
    &&& r.chapter_uuid@ == info.chapter_uuid@
    &&& r.chapter_name@ == info.chapter_name@
    &&& r.video_file@ == video_file_name_of(info.chapter_name@)
    &&& r.file_size == file_size
    &&& r.is_completed == is_completed
}

/// The record of a chapter download made at `download_time`.
pub fn chapter_info(
    info: &CartoonDownloadInfo,
    file_size: u64,
    download_time: String,
    is_completed: bool,
) -> (r: CartoonChapterInfo)
    ensures
        chapter_info_fields(r, *info, file_size, is_completed),
        r.download_time@ == download_time@,
{
    CartoonChapterInfo {
        cartoon_uuid: info.cartoon_uuid.clone(),
        cartoon_name: info.cartoon_name.clone(),
        chapter_uuid: info.chapter_uuid.clone(),
        chapter_name: info.chapter_name.clone(),
        video_file: video_file_name(info.chapter_name.as_str()),
        file_size,
        download_time,
        is_completed,
    }
}

/// The record of a chapter download made now (the time is the clock's,
/// written with `download_time_pattern`); the clock's error when the time
/// cannot be read.
pub fn chapter_info_now(info: &CartoonDownloadInfo, file_size: u64, is_completed: bool) -> (r:
    Result<CartoonChapterInfo, String>)
    ensures
        r matches Ok(rec) ==> chapter_info_fields(rec, *info, file_size, is_completed)
            && is_download_time(rec.download_time@),
        r matches Err(e) ==> is_clock_error(e@),
{
    match download_time_now() {
        Ok(time) => Ok(chapter_info(info, file_size, time, is_completed)),
        Err(e) => Err(e),
    }
}

/// The errors of reading the clock.
pub open spec fn is_clock_error(e: Seq<char>) -> bool {
    e == clock_before_epoch_message() || e == time_out_of_range_message()
}

/// `章节 "<name>" 已存在`
pub open spec fn exists_message_of(chapter_name: Seq<char>) -> Seq<char> {
    "章节 \""@ + chapter_name + "\" 已存在"@
}

/// `章节 "<name>" 下载完成`
pub open spec fn done_message_of(chapter_name: Seq<char>) -> Seq<char> {
    "章节 \""@ + chapter_name + "\" 下载完成"@
}

/// `视频下载失败: <reason>`
pub open spec fn failed_message_of(reason: Seq<char>) -> Seq<char> {
    "视频下载失败: "@ + reason
}

/// The answer when the chapter's video was already on disk.
pub fn already_downloaded(chapter_name: &str, file_path: String) -> (r: CartoonDownloadResult)
    ensures
        r.success,
        r.message@ == exists_message_of(chapter_name@),
        r.file_path@ == file_path@,
{
    let mut message = String::from_str("章节 \"");
    message.append(chapter_name);
    message.append("\" 已存在");
    CartoonDownloadResult { success: true, message, file_path }
}

/// The answer when the chapter's video was downloaded.
pub fn downloaded(chapter_name: &str, file_path: String) -> (r: CartoonDownloadResult)
    ensures
        r.success,
        r.message@ == done_message_of(chapter_name@),
        r.file_path@ == file_path@,
{
    let mut message = String::from_str("章节 \"");
    message.append(chapter_name);
    message.append("\" 下载完成");
    CartoonDownloadResult { success: true, message, file_path }
}

/// The error when the video could not be downloaded.
pub fn download_failed(reason: &str) -> (r: String)
    ensures
        r@ == failed_message_of(reason@),
{
    let mut message = String::from_str("视频下载失败: ");
    message.append(reason);
    message
}

/// A video URL names an HLS playlist when it ends with `.m3u8`.
pub fn is_hls_url(url: &str) -> (r: bool)
    ensures
        r == ends_with(url@, ".m3u8"@),
{
    let cs = chars_of(url);
    let suffix = vec!['.', 'm', '3', 'u', '8'];
    proof {
        reveal_strlit(".m3u8");
    }
    assert(suffix@ == ".m3u8"@);
    assert(cs@.subrange(0, cs@.len() as int) == cs@);
    range_ends_with(&cs, 0, cs.len(), &suffix)
}

/// The folders, below the resource folder, where downloaded cartoons are
/// kept: `downloads/cartoons`, then the older `downloads/anime`.
pub open spec fn download_roots_of() -> Seq<Seq<Seq<char>>> {
    seq![seq!["downloads"@, "cartoons"@], seq!["downloads"@, "anime"@]]
}

/// The folders where a chapter may be kept: each download root, then the
/// cartoon id, then the chapter id.
pub open spec fn chapter_dirs_of(cartoon: Seq<char>, chapter: Seq<char>) -> Seq<Seq<Seq<char>>> {
    seq![
        seq!["downloads"@, "cartoons"@, cartoon, chapter],
        seq!["downloads"@, "anime"@, cartoon, chapter],
    ]
}

/// The folder where new downloads of a cartoon go.
pub open spec fn cartoon_dir_of(cartoon: Seq<char>) -> Seq<Seq<char>> {
    seq!["downloads"@, "cartoons"@, cartoon]
}

/// The folders where downloaded cartoons are kept, newest layout first.
pub fn download_roots() -> (r: Vec<Vec<String>>)
    ensures
        r@.len() == 2,
        forall|i: int| 0 <= i < 2 ==> views_of(#[trigger] r@[i]@) == download_roots_of()[i],
{
    let a = vec![String::from_str("downloads"), String::from_str("cartoons")];
    let b = vec![String::from_str("downloads"), String::from_str("anime")];
    assert(views_of(a@) == download_roots_of()[0]);
    assert(views_of(b@) == download_roots_of()[1]);
    vec![a, b]
}

/// The folders where a chapter may be kept, newest layout first.
pub fn chapter_dirs(cartoon_uuid: &str, chapter_uuid: &str) -> (r: Vec<Vec<String>>)
    ensures
        r@.len() == 2,
        forall|i: int|
            0 <= i < 2 ==> views_of(#[trigger] r@[i]@) == chapter_dirs_of(cartoon_uuid@, chapter_uuid@)[i],
{
    let a = vec![
        String::from_str("downloads"),
        String::from_str("cartoons"),
        String::from_str(cartoon_uuid),
        String::from_str(chapter_uuid),
    ];
    let b = vec![
        String::from_str("downloads"),
        String::from_str("anime"),
        String::from_str(cartoon_uuid),
        String::from_str(chapter_uuid),
    ];
    assert(views_of(a@) == chapter_dirs_of(cartoon_uuid@, chapter_uuid@)[0]);
    assert(views_of(b@) == chapter_dirs_of(cartoon_uuid@, chapter_uuid@)[1]);
    vec![a, b]
}

/// The folder where new downloads of a cartoon go.
pub fn cartoon_dir(cartoon_uuid: &str) -> (r: Vec<String>)
    ensures
        views_of(r@) == cartoon_dir_of(cartoon_uuid@),
{
    let a = vec![
        String::from_str("downloads"),
        String::from_str("cartoons"),
        String::from_str(cartoon_uuid),
    ];
    assert(views_of(a@) == cartoon_dir_of(cartoon_uuid@));
    a
}

/// A chapter download starts: its progress is tracked from the start.
pub fn begin_chapter_download(reg: &mut ProgressRegistry, cartoon_uuid: &str, chapter_uuid: &str)
    requires
        old(reg).wf(),
    ensures
        final(reg).wf(),
        final(reg)@ == old(reg)@.insert(progress_key_of(cartoon_uuid@, chapter_uuid@), initial_tracker()),
{
    let key = chapter_progress_key(cartoon_uuid, chapter_uuid);
    start_tracking(reg, key.as_str());
}

/// A chapter download ended, whether it succeeded or not: its progress is
/// no longer tracked and its pause flag is forgotten.
pub fn end_chapter_download(
    reg: &mut ProgressRegistry,
    flags: &mut CartoonPauseFlags,
    cartoon_uuid: &str,
    chapter_uuid: &str,
)
    requires
        old(reg).wf(),
        old(flags).wf(),
    ensures
        final(reg).wf(),
        final(flags).wf(),
        final(reg)@ == old(reg)@.remove(progress_key_of(cartoon_uuid@, chapter_uuid@)),
        final(flags)@ == old(flags)@.remove(pause_key_of(cartoon_uuid@, chapter_uuid@)),
{
    let progress_key = chapter_progress_key(cartoon_uuid, chapter_uuid);
    let pause_key = chapter_pause_key(cartoon_uuid, chapter_uuid);
    stop_tracking(reg, progress_key.as_str());
    clear_cartoon_pause_flag(flags, pause_key.as_str());
}

/// Once a chapter download has ended, the chapter is neither tracked nor
/// paused, and every other chapter is as it was.
pub proof fn lemma_ended_download_leaves_nothing(
    reg: ProgressRegistry,
    flags: CartoonPauseFlags,
    cartoon: Seq<char>,
    chapter: Seq<char>,
    other_key: Seq<char>,
)
    ensures
        !reg@.remove(progress_key_of(cartoon, chapter)).contains_key(progress_key_of(cartoon, chapter)),
        !paused_in(flags@.remove(pause_key_of(cartoon, chapter)), pause_key_of(cartoon, chapter)),
        other_key != pause_key_of(cartoon, chapter) ==> paused_in(
            flags@.remove(pause_key_of(cartoon, chapter)),
            other_key,
        ) == paused_in(flags@, other_key),
{
}

/// What follows the last `c` in `s` (all of `s` when it holds no `c`).
pub open spec fn tail_after(s: Seq<char>, c: char) -> Seq<char>
    decreases s.len(),
{
    if s.len() == 0 {
        s
    } else if s.last() == c {
        Seq::<char>::empty()
    } else {
        tail_after(s.drop_last(), c).push(s.last())
    }
}

/// Where the text after the last `c` in `cs` starts (0 when there is no `c`).
fn tail_start(cs: &Vec<char>, c: char) -> (r: usize)
    ensures
        r <= cs@.len(),
        cs@.subrange(r as int, cs@.len() as int) == tail_after(cs@, c),
        (r > 0) == cs@.contains(c),
{
    let mut n = cs.len();
    assert(cs@.take(n as int) == cs@);
    assert(cs@.subrange(n as int, n as int) == Seq::<char>::empty());
    while n > 0 && cs[n - 1] != c
        invariant
            n <= cs@.len(),
            forall|j: int| n <= j < cs@.len() ==> cs@[j] != c,
            tail_after(cs@, c) == tail_after(cs@.take(n as int), c) + cs@.subrange(n as int, cs@.len() as int),
        decreases n,
    {
        assert(cs@.take(n as int).drop_last() == cs@.take(n - 1));
        assert(cs@.subrange(n - 1, cs@.len() as int) == seq![cs@[n - 1]] + cs@.subrange(n as int, cs@.len() as int));
        assert(tail_after(cs@.take(n - 1), c).push(cs@[n - 1]) + cs@.subrange(n as int, cs@.len() as int)
            == tail_after(cs@.take(n - 1), c) + cs@.subrange(n - 1, cs@.len() as int));
        n = n - 1;
    }
    if n == 0 {
        assert(tail_after(cs@.take(0), c) == Seq::<char>::empty());
        assert(!cs@.contains(c));
    } else {
        assert(cs@.take(n as int).last() == c);
        assert(cs@[n - 1] == c);
    }
    n
}

/// The file name at the end of a URL: what follows its last `/`.
pub fn file_name_from_url(url: &str) -> (r: String)
    ensures
        r@ == tail_after(url@, '/'),
{
    let cs = chars_of(url);
    let start = tail_start(&cs, '/');
    string_from_chars(&cs, start, cs.len())
}

/// The name under which a cartoon's cover image is saved: `cover.` and the
/// extension of the image's file name (what follows its last `.`), or
/// `cover.jpg` when that name has no extension.
pub open spec fn cover_file_name_of(image_url: Seq<char>) -> Seq<char> {
    let name = tail_after(image_url, '/');
    if name.contains('.') {
        "cover."@ + tail_after(name, '.')
    } else {
        "cover.jpg"@
    }
}

/// The name under which a cartoon's cover image is saved.
pub fn cover_file_name(image_url: &str) -> (r: String)
    ensures
        r@ == cover_file_name_of(image_url@),
{
    let name = file_name_from_url(image_url);
    let cs = chars_of(name.as_str());
    let start = tail_start(&cs, '.');
    if start == 0 {
        String::from_str("cover.jpg")
    } else {
        let ext = string_from_chars(&cs, start, cs.len());
        let mut r = String::from_str("cover.");
        r.append(ext.as_str());
        r
    }
}

/// How a chapter download begins.
#[derive(Clone, Debug)]
pub enum ChapterStart {
    /// The video is already on disk: save this record (complete, size 0)
    /// and answer with `already_downloaded`; nothing is tracked.
    AlreadyThere { record: CartoonChapterInfo },
    /// The video must be downloaded: its progress is tracked from now on;
    /// save this first record (not complete, size 0), then download.
    Download { record: CartoonChapterInfo },
}

/// Begins a chapter download, given whether its video is already on disk;
/// when the clock cannot be read, its error, and nothing is tracked.
pub fn start_chapter_download(reg: &mut ProgressRegistry, info: &CartoonDownloadInfo, video_exists: bool) -> (r: Result<ChapterStart, String>)
    requires
        old(reg).wf(),
    ensures
        final(reg).wf(),
        r matches Err(e) ==> is_clock_error(e@) && final(reg)@ == old(reg)@,
        video_exists ==> final(reg)@ == old(reg)@,
        video_exists && r is Ok ==> (r->Ok_0 matches ChapterStart::AlreadyThere { record }
            && chapter_info_fields(record, *info, 0, true) && is_download_time(record.download_time@)),
        !video_exists && r is Ok ==> (r->Ok_0 matches ChapterStart::Download { record }
            && chapter_info_fields(record, *info, 0, false) && is_download_time(record.download_time@)),
        !video_exists && r is Ok ==> final(reg)@ == old(reg)@.insert(
            progress_key_of(info.cartoon_uuid@, info.chapter_uuid@),
            initial_tracker(),
        ),
{
    if video_exists {
        match chapter_info_now(info, 0, true) {
            Ok(record) => Ok(ChapterStart::AlreadyThere { record }),
            Err(e) => Err(e),
        }
    } else {
        match chapter_info_now(info, 0, false) {
            Ok(record) => {
                begin_chapter_download(reg, info.cartoon_uuid.as_str(), info.chapter_uuid.as_str());
                Ok(ChapterStart::Download { record })
            },
            Err(e) => Err(e),
        }
    }
}

} // verus!
