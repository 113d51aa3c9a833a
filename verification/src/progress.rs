//! Download progress: the record kept for each chapter being downloaded,
//! how each step of a download changes it, and what a progress query answers.
use vstd::prelude::*;
use crate::pause::{chapter_progress_key, progress_key_of};
use crate::store::KeyedStore;

verus! {

/// A completion percentage, kept as the integers it is computed from.
#[derive(Clone, Copy, Debug)]
pub enum Percent {
    /// Exactly this many percent.
    Whole(u64),
    /// `offset + (part / whole) * scale` percent.
    Ratio { offset: u64, part: u64, whole: u64, scale: u64 },
}

/// The percentage times its denominator.
pub open spec fn percent_numerator(p: Percent) -> int {
    match p {
        Percent::Whole(v) => v as int,
        Percent::Ratio { offset, part, whole, scale } => offset * whole + part * scale,
    }
}

/// The denominator of the percentage.
pub open spec fn percent_denominator(p: Percent) -> int {
    match p {
        Percent::Whole(_) => 1,
        Percent::Ratio { whole, .. } => whole as int,
    }
}

/// The percentage lies between 0 and 100 and has a positive denominator.
pub open spec fn percent_in_range(p: Percent) -> bool {
    &&& percent_denominator(p) > 0
    &&& 0 <= percent_numerator(p) <= 100 * percent_denominator(p)
}

/// The percentage `a` is at most the percentage `b`.
pub open spec fn percent_le(a: Percent, b: Percent) -> bool {
    percent_numerator(a) * percent_denominator(b) <= percent_numerator(b) * percent_denominator(a)
}

/// The stage a download is in.
#[derive(Clone, Copy, Debug)]
pub enum DownloadStatus {
    Starting,
    Downloading,
    Paused,
    Merging,
    Completed,
}

/// The status as the front end reads it.
pub fn status_text(s: DownloadStatus) -> (r: String)
    ensures
        r@ == status_text_of(s),
{
    match s {
        DownloadStatus::Starting => String::from_str("starting"),
        DownloadStatus::Downloading => String::from_str("downloading"),
        DownloadStatus::Paused => String::from_str("paused"),
        DownloadStatus::Merging => String::from_str("merging"),
        DownloadStatus::Completed => String::from_str("completed"),
    }
}

/// The text of each status.
pub open spec fn status_text_of(s: DownloadStatus) -> Seq<char> {
    match s {
        DownloadStatus::Starting => "starting"@,
        DownloadStatus::Downloading => "downloading"@,
        DownloadStatus::Paused => "paused"@,
        DownloadStatus::Merging => "merging"@,
        DownloadStatus::Completed => "completed"@,
    }
}

/// What the download is doing, shown to the user.
#[derive(Clone, Copy, Debug)]
pub enum ProgressNote {
    /// Getting ready.
    Preparing,
    /// A plain file at this percentage.
    Percent(Percent),
    /// Downloading segment `number` (counted from 1) of `count`.
    Segment { number: usize, count: usize },
    /// Paused by the user.
    Paused,
    /// Joining the segments.
    Merging,
    /// Joining part `number` (counted from 1) of `count`, segment index `index`.
    MergePart { number: usize, count: usize, index: usize },
    /// Finished.
    Done,
}

/// The progress record of one chapter download.
#[derive(Clone, Copy, Debug)]
pub struct CartoonProgressTracker {
    pub current_segment: usize,
    pub total_segments: usize,
    pub downloaded_bytes: u64,
    pub total_bytes: u64,
    pub percent: Percent,
    pub status: DownloadStatus,
    pub current_file: ProgressNote,
}

/// The progress records of the chapters being downloaded, by progress key.
pub type ProgressRegistry = KeyedStore<CartoonProgressTracker>;

/// `m` with the record under `key` replaced by `t`, when there is a record there.
pub open spec fn update_existing(
    m: Map<Seq<char>, CartoonProgressTracker>,
    key: Seq<char>,
    t: CartoonProgressTracker,
) -> Map<Seq<char>, CartoonProgressTracker> {
    if m.contains_key(key) {
        m.insert(key, t)
    } else {
        m
    }
}

/// The record of a download that is about to start.
pub open spec fn initial_tracker() -> CartoonProgressTracker {
    CartoonProgressTracker {
        current_segment: 0,
        total_segments: 0,
        downloaded_bytes: 0,
        total_bytes: 0,
        percent: Percent::Whole(0),
        status: DownloadStatus::Starting,
        current_file: ProgressNote::Preparing,
    }
}

/// A plain file after `downloaded` of `total` bytes: the percentage changes
/// only when the total is known.
pub open spec fn after_chunk(t: CartoonProgressTracker, downloaded: u64, total: u64) -> CartoonProgressTracker {
    let percent = if total > 0 {
        Percent::Ratio { offset: 0, part: downloaded, whole: total, scale: 100 }
    } else {
        t.percent
    };
    CartoonProgressTracker {
        downloaded_bytes: downloaded,
        total_bytes: total,
        percent: percent,
        status: DownloadStatus::Downloading,
        current_file: ProgressNote::Percent(percent),
        ..t
    }
}

/// About to download segment `index` of `count`: downloading takes the
/// first 80 percent.
pub open spec fn at_segment(t: CartoonProgressTracker, index: usize, count: usize) -> CartoonProgressTracker {
    CartoonProgressTracker {
        current_segment: (index + 1) as usize,
        total_segments: count,
        percent: Percent::Ratio { offset: 0, part: index as u64, whole: count as u64, scale: 80 },
        status: DownloadStatus::Downloading,
        current_file: ProgressNote::Segment { number: (index + 1) as usize, count },
        ..t
    }
}

/// `downloaded` bytes of segments are on disk.
pub open spec fn with_downloaded(t: CartoonProgressTracker, downloaded: u64) -> CartoonProgressTracker {
    CartoonProgressTracker { downloaded_bytes: downloaded, ..t }
}

/// Paused by the user.
pub open spec fn paused(t: CartoonProgressTracker) -> CartoonProgressTracker {
    CartoonProgressTracker { status: DownloadStatus::Paused, current_file: ProgressNote::Paused, ..t }
}

/// Resumed at segment `index` of `count`.
pub open spec fn resumed(t: CartoonProgressTracker, index: usize, count: usize) -> CartoonProgressTracker {
    CartoonProgressTracker {
        status: DownloadStatus::Downloading,
        current_file: ProgressNote::Segment { number: (index + 1) as usize, count },
        ..t
    }
}

/// Joining starts at 80 percent.
pub open spec fn merging(t: CartoonProgressTracker) -> CartoonProgressTracker {
    CartoonProgressTracker {
        percent: Percent::Whole(80),
        status: DownloadStatus::Merging,
        current_file: ProgressNote::Merging,
        ..t
    }
}

/// Part `position` of `count` (segment index `index`) joined: joining takes
/// the last 20 percent.
pub open spec fn merged_part(t: CartoonProgressTracker, position: usize, count: usize, index: usize) -> CartoonProgressTracker {
    CartoonProgressTracker {
        percent: Percent::Ratio { offset: 80, part: position as u64, whole: count as u64, scale: 20 },
        current_file: ProgressNote::MergePart { number: (position + 1) as usize, count, index },
        ..t
    }
}

/// Finished with `total` bytes.
pub open spec fn finished(t: CartoonProgressTracker, total: u64) -> CartoonProgressTracker {
    CartoonProgressTracker {
        percent: Percent::Whole(100),
        status: DownloadStatus::Completed,
        current_file: ProgressNote::Done,
        total_bytes: total,
        ..t
    }
}

/// Starts tracking the download filed under `key`.
pub fn start_tracking(reg: &mut ProgressRegistry, key: &str)
    requires
        old(reg).wf(),
    ensures
        final(reg).wf(),
        final(reg)@ == old(reg)@.insert(key@, initial_tracker()),
{
    reg.insert(
        key,
        CartoonProgressTracker {
            current_segment: 0,
            total_segments: 0,
            downloaded_bytes: 0,
            total_bytes: 0,
            percent: Percent::Whole(0),
            status: DownloadStatus::Starting,
            current_file: ProgressNote::Preparing,
        },
    );
}

/// Stops tracking the download filed under `key`.
pub fn stop_tracking(reg: &mut ProgressRegistry, key: &str)
    requires
        old(reg).wf(),
    ensures
        final(reg).wf(),
        final(reg)@ == old(reg)@.remove(key@),
{
    reg.remove(key);
}

/// A chunk of `chunk_len` bytes of a plain file arrived after `downloaded`
/// bytes; returns the new count, and records it against `total` bytes.
pub fn record_chunk(reg: &mut ProgressRegistry, key: &str, downloaded: u64, chunk_len: u64, total: u64) -> (r: u64)
    requires
        old(reg).wf(),
        downloaded + chunk_len <= u64::MAX,
    ensures
        r == downloaded + chunk_len,
        final(reg).wf(),
        final(reg)@ == update_existing(old(reg)@, key@, after_chunk(old(reg)@[key@], r, total)),
{
    let now = downloaded + chunk_len;
    match reg.get(key) {
        Some(t) => {
            let mut n = *t;
            n.downloaded_bytes = now;
            n.total_bytes = total;
            if total > 0 {
                n.percent = Percent::Ratio { offset: 0, part: now, whole: total, scale: 100 };
            }
            n.status = DownloadStatus::Downloading;
            n.current_file = ProgressNote::Percent(n.percent);
            reg.insert(key, n);
        },
        None => {},
    }
    now
}

/// Segment `index` of `count` is about to be downloaded.
pub fn begin_segment(reg: &mut ProgressRegistry, key: &str, index: usize, count: usize)
    requires
        old(reg).wf(),
        index < count,
    ensures
        final(reg).wf(),
        final(reg)@ == update_existing(old(reg)@, key@, at_segment(old(reg)@[key@], index, count)),
{
    match reg.get(key) {
        Some(t) => {
            let mut n = *t;
            n.current_segment = index + 1;
            n.total_segments = count;
            n.percent = Percent::Ratio { offset: 0, part: index as u64, whole: count as u64, scale: 80 };
            n.status = DownloadStatus::Downloading;
            n.current_file = ProgressNote::Segment { number: index + 1, count };
            reg.insert(key, n);
        },
        None => {},
    }
}

/// A segment of `segment_len` bytes was saved after `downloaded` bytes;
/// returns the new count and records it.
pub fn record_segment(reg: &mut ProgressRegistry, key: &str, downloaded: u64, segment_len: u64) -> (r: u64)
    requires
        old(reg).wf(),
        downloaded + segment_len <= u64::MAX,
    ensures
        r == downloaded + segment_len,
        final(reg).wf(),
        final(reg)@ == update_existing(old(reg)@, key@, with_downloaded(old(reg)@[key@], r)),
{
    let now = downloaded + segment_len;
    match reg.get(key) {
        Some(t) => {
            let mut n = *t;
            n.downloaded_bytes = now;
            reg.insert(key, n);
        },
        None => {},
    }
    now
}

/// The user paused the download.
pub fn mark_paused(reg: &mut ProgressRegistry, key: &str)
    requires
        old(reg).wf(),
    ensures
        final(reg).wf(),
        final(reg)@ == update_existing(old(reg)@, key@, paused(old(reg)@[key@])),
{
    match reg.get(key) {
        Some(t) => {
            let mut n = *t;
            n.status = DownloadStatus::Paused;
            n.current_file = ProgressNote::Paused;
            reg.insert(key, n);
        },
        None => {},
    }
}

/// The user resumed the download at segment `index` of `count`.
pub fn mark_resumed(reg: &mut ProgressRegistry, key: &str, index: usize, count: usize)
    requires
        old(reg).wf(),
        index < count,
    ensures
        final(reg).wf(),
        final(reg)@ == update_existing(old(reg)@, key@, resumed(old(reg)@[key@], index, count)),
{
    match reg.get(key) {
        Some(t) => {
            let mut n = *t;
            n.status = DownloadStatus::Downloading;
            n.current_file = ProgressNote::Segment { number: index + 1, count };
            reg.insert(key, n);
        },
        None => {},
    }
}

/// Joining the segments begins.
pub fn begin_merge(reg: &mut ProgressRegistry, key: &str)
    requires
        old(reg).wf(),
    ensures
        final(reg).wf(),
        final(reg)@ == update_existing(old(reg)@, key@, merging(old(reg)@[key@])),
{
    match reg.get(key) {
        Some(t) => {
            let mut n = *t;
            n.percent = Percent::Whole(80);
            n.status = DownloadStatus::Merging;
            n.current_file = ProgressNote::Merging;
            reg.insert(key, n);
        },
        None => {},
    }
}

/// Part `position` of `count` (segment index `index`) was joined.
pub fn record_merged_part(reg: &mut ProgressRegistry, key: &str, position: usize, count: usize, index: usize)
    requires
        old(reg).wf(),
        position < count,
    ensures
        final(reg).wf(),
        final(reg)@ == update_existing(old(reg)@, key@, merged_part(old(reg)@[key@], position, count, index)),
{
    match reg.get(key) {
        Some(t) => {
            let mut n = *t;
            n.percent = Percent::Ratio { offset: 80, part: position as u64, whole: count as u64, scale: 20 };
            n.current_file = ProgressNote::MergePart { number: position + 1, count, index };
            reg.insert(key, n);
        },
        None => {},
    }
}

/// The download finished with `total` bytes.
pub fn mark_finished(reg: &mut ProgressRegistry, key: &str, total: u64)
    requires
        old(reg).wf(),
    ensures
        final(reg).wf(),
        final(reg)@ == update_existing(old(reg)@, key@, finished(old(reg)@[key@], total)),
{
    match reg.get(key) {
        Some(t) => {
            let mut n = *t;
            n.percent = Percent::Whole(100);
            n.status = DownloadStatus::Completed;
            n.current_file = ProgressNote::Done;
            n.total_bytes = total;
            reg.insert(key, n);
        },
        None => {},
    }
}

/// What a progress query answers.
#[derive(Clone, Copy, Debug)]
pub struct CartoonDownloadProgress {
    pub downloaded_size: u64,
    pub total_size: u64,
    pub percent: Percent,
    pub completed: bool,
}

/// The answer for a chapter that is being downloaded.
pub open spec fn progress_of_tracker(t: CartoonProgressTracker) -> CartoonDownloadProgress {
    CartoonDownloadProgress {
        downloaded_size: t.downloaded_bytes,
        total_size: t.total_bytes,
        percent: t.percent,
        completed: t.status is Completed,
    }
}

/// The answer for a chapter whose saved record gives `size` bytes.
pub open spec fn progress_of_saved(size: u64) -> CartoonDownloadProgress {
    CartoonDownloadProgress {
        downloaded_size: size,
        total_size: size,
        percent: Percent::Whole(100),
        completed: true,
    }
}

/// The answer for a chapter of which nothing is known.
pub open spec fn progress_not_started() -> CartoonDownloadProgress {
    CartoonDownloadProgress {
        downloaded_size: 0,
        total_size: 0,
        percent: Percent::Whole(0),
        completed: false,
    }
}

/// The first saved size in `saved`, if any.
pub open spec fn first_saved(saved: Seq<Option<u64>>) -> Option<u64>
    decreases saved.len(),
{
    if saved.len() == 0 {
        None
    } else if saved[0] is Some {
        saved[0]
    } else {
        first_saved(saved.drop_first())
    }
}

/// The answer to a progress query: the live record of the chapter when it
/// is being downloaded; else the first readable saved record (one entry per
/// folder where it may be saved, `None` where none could be read); else
/// not started.
pub open spec fn progress_answer(
    reg: Map<Seq<char>, CartoonProgressTracker>,
    key: Seq<char>,
    saved: Seq<Option<u64>>,
) -> CartoonDownloadProgress {
    if reg.contains_key(key) {
        progress_of_tracker(reg[key])
    } else {
        match first_saved(saved) {
            Some(size) => progress_of_saved(size),
            None => progress_not_started(),
        }
    }
}

/// The live progress of a chapter, when it is being downloaded.
pub fn tracked_progress(reg: &ProgressRegistry, cartoon_uuid: &str, chapter_uuid: &str) -> (r: Option<CartoonDownloadProgress>)
    requires
        reg.wf(),
    ensures
        r is Some <==> reg@.contains_key(progress_key_of(cartoon_uuid@, chapter_uuid@)),
        r matches Some(p) ==> p == progress_of_tracker(reg@[progress_key_of(cartoon_uuid@, chapter_uuid@)]),
{
    let key = chapter_progress_key(cartoon_uuid, chapter_uuid);
    match reg.get(key.as_str()) {
        Some(t) => Some(
            CartoonDownloadProgress {
                downloaded_size: t.downloaded_bytes,
                total_size: t.total_bytes,
                percent: t.percent,
                completed: match t.status {
                    DownloadStatus::Completed => true,
                    _ => false,
                },
            },
        ),
        None => None,
    }
}

/// The progress of a chapter download: see `progress_answer`.
pub fn get_cartoon_download_progress(
    reg: &ProgressRegistry,
    cartoon_uuid: &str,
    chapter_uuid: &str,
    saved_sizes: &Vec<Option<u64>>,
) -> (r: CartoonDownloadProgress)
    requires
        reg.wf(),
    ensures
        r == progress_answer(reg@, progress_key_of(cartoon_uuid@, chapter_uuid@), saved_sizes@),
{
    match tracked_progress(reg, cartoon_uuid, chapter_uuid) {
        Some(p) => p,
        None => {
            let mut i: usize = 0;
            assert(saved_sizes@.skip(0) == saved_sizes@);
            while i < saved_sizes.len()
                invariant
                    !reg@.contains_key(progress_key_of(cartoon_uuid@, chapter_uuid@)),
                    i <= saved_sizes@.len(),
                    first_saved(saved_sizes@) == first_saved(saved_sizes@.skip(i as int)),
                decreases saved_sizes.len() - i,
            {
                assert(saved_sizes@.skip(i as int).drop_first() == saved_sizes@.skip(i + 1));
                match saved_sizes[i] {
                    Some(size) => {
                        assert(saved_sizes@.skip(i as int)[0] == Some(size));
                        return CartoonDownloadProgress {
                            downloaded_size: size,
                            total_size: size,
                            percent: Percent::Whole(100),
                            completed: true,
                        };
                    },
                    None => {},
                }
                i = i + 1;
            }
            CartoonDownloadProgress {
                downloaded_size: 0,
                total_size: 0,
                percent: Percent::Whole(0),
                completed: false,
            }
        },
    }
}

/// Every percentage that a download step sets lies between 0 and 100, as
/// long as a plain file does not grow past its announced size.
pub proof fn lemma_step_percents_in_range(
    t: CartoonProgressTracker,
    downloaded: u64,
    total: u64,
    index: usize,
    count: usize,
    position: usize,
    parts: usize,
    segment_index: usize,
    final_total: u64,
)
    requires
        downloaded <= total,
        index < count,
        position < parts,
    ensures
        total > 0 ==> percent_in_range(after_chunk(t, downloaded, total).percent),
        percent_in_range(initial_tracker().percent),
        percent_in_range(at_segment(t, index, count).percent),
        percent_in_range(merging(t).percent),
        percent_in_range(merged_part(t, position, parts, segment_index).percent),
        percent_in_range(finished(t, final_total).percent),
{
    assert(downloaded * 100 <= 100 * total) by (nonlinear_arith)
        requires
            downloaded <= total,
    ;
    assert(index * 80 <= 100 * count) by (nonlinear_arith)
        requires
            index < count,
    ;
    assert(80 * parts + position * 20 <= 100 * parts) by (nonlinear_arith)
        requires
            position < parts,
    ;
}

/// An HLS download never reports less than before: the segment steps rise
/// with the index and stay below 80 percent, joining starts at 80 and rises
/// with the part, and completion is 100.
pub proof fn lemma_hls_percent_rises(
    t: CartoonProgressTracker,
    u: CartoonProgressTracker,
    i: usize,
    j: usize,
    count: usize,
    p: usize,
    q: usize,
    parts: usize,
    a: usize,
    b: usize,
    total: u64,
)
    requires
        i <= j < count,
        p <= q < parts,
    ensures
        percent_le(at_segment(t, i, count).percent, at_segment(u, j, count).percent),
        percent_le(at_segment(t, j, count).percent, merging(u).percent),
        percent_le(merging(t).percent, merged_part(u, p, parts, a).percent),
        percent_le(merged_part(t, p, parts, a).percent, merged_part(u, q, parts, b).percent),
        percent_le(merged_part(t, q, parts, b).percent, finished(u, total).percent),
{
    assert((i * 80) * count <= (j * 80) * count) by (nonlinear_arith)
        requires
            i <= j,
    ;
    assert(j * 80 <= 80 * count) by (nonlinear_arith)
        requires
            j < count,
    ;
    assert(80 * parts <= 80 * parts + p * 20) by (nonlinear_arith);
    assert((80 * parts + p * 20) * parts <= (80 * parts + q * 20) * parts) by (nonlinear_arith)
        requires
            p <= q,
    ;
    assert(80 * parts + q * 20 <= 100 * parts) by (nonlinear_arith)
        requires
            q < parts,
    ;
}

/// The percentage an HLS download reports at step `i` of a run that fetches
/// segments `first` to `count - 1` and then joins `parts` parts: 0 when it
/// starts, one step per segment, 80 when joining starts, one step per
/// joined part, and 100 at the end.
pub open spec fn hls_run_percent(first: usize, count: usize, parts: usize, i: int) -> Percent {
    let segments = count - first;
    if i == 0 {
        initial_tracker().percent
    } else if i <= segments {
        at_segment(initial_tracker(), (first + i - 1) as usize, count).percent
    } else if i == segments + 1 {
        merging(initial_tracker()).percent
    } else if i <= segments + 1 + parts {
        merged_part(initial_tracker(), (i - segments - 2) as usize, parts, 0).percent
    } else {
        finished(initial_tracker(), 0).percent
    }
}

/// The number of steps of such a run.
pub open spec fn hls_run_len(first: usize, count: usize, parts: usize) -> int {
    count - first + parts + 3
}

/// `percent_le` is transitive.
proof fn lemma_percent_le_transitive(a: Percent, b: Percent, c: Percent)
    requires
        percent_in_range(a),
        percent_in_range(b),
        percent_in_range(c),
        percent_le(a, b),
        percent_le(b, c),
    ensures
        percent_le(a, c),
{
    let (na, da) = (percent_numerator(a), percent_denominator(a));
    let (nb, db) = (percent_numerator(b), percent_denominator(b));
    let (nc, dc) = (percent_numerator(c), percent_denominator(c));
    assert(na * dc <= nc * da) by (nonlinear_arith)
        requires
            da > 0,
            db > 0,
            dc > 0,
            na * db <= nb * da,
            nb * dc <= nc * db,
    {
        assert(na * db * dc <= nb * da * dc);
        assert(nb * dc * da <= nc * db * da);
        assert((na * dc) * db <= (nc * da) * db);
    }
}

/// The numerator and denominator of step `i` of a run.
proof fn lemma_hls_run_fraction(first: usize, count: usize, parts: usize, i: int)
    requires
        first <= count,
        0 <= i < hls_run_len(first, count, parts),
    ensures
        i == 0 ==> percent_numerator(hls_run_percent(first, count, parts, i)) == 0
            && percent_denominator(hls_run_percent(first, count, parts, i)) == 1,
        1 <= i <= count - first ==> percent_numerator(hls_run_percent(first, count, parts, i)) == (first + i - 1) * 80
            && percent_denominator(hls_run_percent(first, count, parts, i)) == count,
        i == count - first + 1 ==> percent_numerator(hls_run_percent(first, count, parts, i)) == 80
            && percent_denominator(hls_run_percent(first, count, parts, i)) == 1,
        count - first + 1 < i <= count - first + 1 + parts ==> percent_numerator(hls_run_percent(first, count, parts, i))
            == 80 * parts + (i - (count - first) - 2) * 20 && percent_denominator(hls_run_percent(first, count, parts, i))
            == parts,
        i > count - first + 1 + parts ==> percent_numerator(hls_run_percent(first, count, parts, i)) == 100
            && percent_denominator(hls_run_percent(first, count, parts, i)) == 1,
{
    let segments = count - first;
    if 1 <= i <= segments {
        let k = (first + i - 1) as usize;
        let p = hls_run_percent(first, count, parts, i);
        assert(p == Percent::Ratio { offset: 0, part: k as u64, whole: count as u64, scale: 80 });
        assert(0 * (count as u64) == 0) by (nonlinear_arith);
    }
    if segments + 1 < i <= segments + 1 + parts {
        let k = (i - segments - 2) as usize;
        assert(k as u64 == i - segments - 2);
        assert(parts as u64 == parts);
    }
}

/// One step of a run never lowers the percentage, and each lies between 0 and 100.
proof fn lemma_hls_run_step(first: usize, count: usize, parts: usize, i: int)
    requires
        first <= count,
        0 <= i < hls_run_len(first, count, parts),
    ensures
        percent_in_range(hls_run_percent(first, count, parts, i)),
        i + 1 < hls_run_len(first, count, parts) ==> percent_le(
            hls_run_percent(first, count, parts, i),
            hls_run_percent(first, count, parts, i + 1),
        ),
{
    let segments = count - first;
    let n = count as int;
    let m = parts as int;
    lemma_hls_run_fraction(first, count, parts, i);
    if 1 <= i <= segments {
        let k = first + i - 1;
        assert(0 <= k * 80 <= 100 * n) by (nonlinear_arith)
            requires
                0 <= k < n,
        ;
    }
    if segments + 1 < i <= segments + 1 + m {
        let k = i - segments - 2;
        assert(0 <= 80 * m + k * 20 <= 100 * m) by (nonlinear_arith)
            requires
                0 <= k < m,
        ;
    }
    if i + 1 < hls_run_len(first, count, parts) {
        lemma_hls_run_fraction(first, count, parts, i + 1);
        if i == 0 {
            if segments > 0 {
                assert(0 <= first * 80) by (nonlinear_arith);
            }
        } else if i < segments {
            let k = first + i - 1;
            assert((k * 80) * n <= ((k + 1) * 80) * n) by (nonlinear_arith)
                requires
                    0 <= k,
                    0 <= n,
            ;
        } else if i == segments {
            let k = first + i - 1;
            assert(k * 80 <= 80 * n) by (nonlinear_arith)
                requires
                    k < n,
            ;
        } else if i == segments + 1 {
            assert(80 * m <= 80 * m + 0 * 20);
        } else if i < segments + 1 + m {
            let k = i - segments - 2;
            assert((80 * m + k * 20) * m <= (80 * m + (k + 1) * 20) * m) by (nonlinear_arith)
                requires
                    0 <= k,
                    0 <= m,
            ;
        } else {
            let k = i - segments - 2;
            if m > 0 {
                assert(80 * m + k * 20 <= 100 * m) by (nonlinear_arith)
                    requires
                        k < m,
                ;
            }
        }
    }
}

/// Over a whole HLS run the reported percentage never falls: every step
/// reports between 0 and 100, and a later step at least as much as an
/// earlier one.
pub proof fn lemma_hls_run_percent_rises(first: usize, count: usize, parts: usize, i: int, j: int)
    requires
        first <= count,
        0 <= i <= j < hls_run_len(first, count, parts),
    ensures
        percent_in_range(hls_run_percent(first, count, parts, i)),
        percent_le(hls_run_percent(first, count, parts, i), hls_run_percent(first, count, parts, j)),
    decreases j - i,
{
    lemma_hls_run_step(first, count, parts, i);
    if i == j {
        let p = hls_run_percent(first, count, parts, i);
        assert(percent_numerator(p) * percent_denominator(p) <= percent_numerator(p) * percent_denominator(p));
    } else {
        lemma_hls_run_step(first, count, parts, i + 1);
        lemma_hls_run_step(first, count, parts, j);
        lemma_hls_run_percent_rises(first, count, parts, i + 1, j);
        lemma_percent_le_transitive(
            hls_run_percent(first, count, parts, i),
            hls_run_percent(first, count, parts, i + 1),
            hls_run_percent(first, count, parts, j),
        );
    }
}

/// A progress query on a chapter that is being downloaded reads its live
/// record: its bytes and percentage, and completed exactly when the record
/// has reached the Completed stage (so a download that is still joining
/// its segments reads as not completed). A chapter that is not being
/// downloaded reads as completed with 100 percent exactly when one of its
/// saved records could be read, and as not started (0 bytes, 0 percent,
/// not completed) otherwise.
pub proof fn lemma_progress_answer_fields(
    reg: Map<Seq<char>, CartoonProgressTracker>,
    key: Seq<char>,
    saved: Seq<Option<u64>>,
)
    ensures
        reg.contains_key(key) ==> {
            let a = progress_answer(reg, key, saved);
            &&& a.completed <==> reg[key].status is Completed
            &&& a.percent == reg[key].percent
            &&& a.downloaded_size == reg[key].downloaded_bytes
            &&& a.total_size == reg[key].total_bytes
        },
        reg.contains_key(key) && reg[key].status is Merging ==> !progress_answer(reg, key, saved).completed,
        !reg.contains_key(key) ==> {
            let a = progress_answer(reg, key, saved);
            &&& a.completed <==> exists|i: int| 0 <= i < saved.len() && #[trigger] saved[i] is Some
            &&& a.completed ==> a.percent == Percent::Whole(100) && a.downloaded_size == a.total_size
                && exists|i: int| 0 <= i < saved.len() && #[trigger] saved[i] == Some(a.downloaded_size)
            &&& !a.completed ==> a.percent == Percent::Whole(0) && a.downloaded_size == 0 && a.total_size == 0
        },
{
    lemma_first_saved(saved);
}

/// `first_saved` gives the first readable saved size, and nothing exactly
/// when none could be read.
proof fn lemma_first_saved(saved: Seq<Option<u64>>)
    ensures
        first_saved(saved) is Some <==> exists|i: int| 0 <= i < saved.len() && #[trigger] saved[i] is Some,
        first_saved(saved) matches Some(v) ==> exists|i: int| 0 <= i < saved.len() && #[trigger] saved[i] == Some(v),
    decreases saved.len(),
{
    if saved.len() > 0 {
        let rest = saved.drop_first();
        lemma_first_saved(rest);
        if saved[0] is Some {
            assert(saved[0] is Some);
        } else {
            if exists|i: int| 0 <= i < saved.len() && #[trigger] saved[i] is Some {
                let i = choose|i: int| 0 <= i < saved.len() && #[trigger] saved[i] is Some;
                assert(rest[i - 1] == saved[i]);
            }
            if exists|i: int| 0 <= i < rest.len() && #[trigger] rest[i] is Some {
                let i = choose|i: int| 0 <= i < rest.len() && #[trigger] rest[i] is Some;
                assert(saved[i + 1] == rest[i]);
            }
            if first_saved(rest) is Some {
                let v = first_saved(rest)->0;
                let i = choose|i: int| 0 <= i < rest.len() && #[trigger] rest[i] == Some(v);
                assert(saved[i + 1] == rest[i]);
            }
        }
    }
}

/// A chapter that is being downloaded is answered from its live record,
/// and reads as completed once the download has finished; once it is no
/// longer tracked, the saved records decide.
pub proof fn lemma_query_follows_tracking(
    reg: Map<Seq<char>, CartoonProgressTracker>,
    key: Seq<char>,
    t: CartoonProgressTracker,
    total: u64,
    saved: Seq<Option<u64>>,
)
    ensures
        progress_answer(reg.insert(key, t), key, saved) == progress_of_tracker(t),
        reg.contains_key(key) ==> progress_answer(
            update_existing(reg, key, finished(reg[key], total)),
            key,
            saved,
        ).completed,
        progress_answer(reg.remove(key), key, saved) == (match first_saved(saved) {
            Some(size) => progress_of_saved(size),
            None => progress_not_started(),
        }),
{
}

} // verus!
