//! The course of an HLS download: which segment to fetch next, when to
//! wait for the user to resume, and when to join the segments; each event
//! updates the chapter's progress record.
use vstd::prelude::*;
use crate::pause::{is_cartoon_paused, paused_in, CartoonPauseFlags};
use crate::progress::{
    at_segment, begin_segment, mark_paused, mark_resumed, paused, record_segment, resumed,
    update_existing, with_downloaded, ProgressRegistry,
};
use crate::segments::{found_bytes, is_resume_plan_of, FoundSegment, ResumePlan};

verus! {

/// What the HLS download does next.
#[derive(Clone, Copy, Debug)]
pub enum HlsStep {
    /// Fetch segment `index`, save it, and report its size.
    Fetch { index: usize },
    /// Wait a moment, then ask whether the user has resumed.
    WaitForResume,
    /// All segments are on disk: join them.
    Join,
}

/// The state of an HLS download.
#[derive(Clone, Copy, Debug)]
pub struct HlsDownload {
    /// The number of segments in the playlist.
    pub count: usize,
    /// The next segment to fetch (or the one just fetched, while paused).
    pub next_index: usize,
    /// The bytes of segments on disk.
    pub downloaded: u64,
    /// Whether the user paused the download after the last segment.
    pub paused: bool,
}

/// What the download does next in state `d`.
pub open spec fn hls_step_of(d: HlsDownload) -> HlsStep {
    if d.paused {
        HlsStep::WaitForResume
    } else if d.next_index < d.count {
        HlsStep::Fetch { index: d.next_index }
    } else {
        HlsStep::Join
    }
}

/// A download that is paused waits on the segment it fetched last.
pub open spec fn hls_wf(d: HlsDownload) -> bool {
    d.paused ==> d.next_index < d.count
}

/// The bytes of found segments still on disk once the discarded one was
/// (or could not be) deleted.
pub open spec fn bytes_kept(found: Seq<FoundSegment>, plan: ResumePlan, discard_deleted: bool) -> int {
    match plan.discard {
        Some(p) => if discard_deleted {
            found_bytes(found) - found[p as int].size
        } else {
            found_bytes(found) as int
        },
        None => found_bytes(found) as int,
    }
}

impl HlsDownload {
    /// Starts the download of a playlist of `count` segments where `plan`
    /// resumes it.
    pub fn start(found: &Vec<FoundSegment>, plan: &ResumePlan, discard_deleted: bool, count: usize) -> (d: HlsDownload)
        requires
            is_resume_plan_of(found@, *plan),
        ensures
            hls_wf(d),
            d.count == count,
            d.next_index == plan.start_index,
            d.downloaded == bytes_kept(found@, *plan, discard_deleted),
            !d.paused,
    {
        HlsDownload {
            count,
            next_index: plan.start_index,
            downloaded: plan.bytes_on_disk(found, discard_deleted),
            paused: false,
        }
    }

    /// What the download does next.
    pub fn step(&self) -> (s: HlsStep)
        ensures
            s == hls_step_of(*self),
    {
        if self.paused {
            HlsStep::WaitForResume
        } else if self.next_index < self.count {
            HlsStep::Fetch { index: self.next_index }
        } else {
            HlsStep::Join
        }
    }

    /// The segment `next_index` is about to be fetched.
    pub fn begin_fetch(&self, reg: &mut ProgressRegistry, progress_key: &str)
        requires
            old(reg).wf(),
            hls_step_of(*self) == (HlsStep::Fetch { index: self.next_index }),
        ensures
            final(reg).wf(),
            final(reg)@ == update_existing(
                old(reg)@,
                progress_key@,
                at_segment(old(reg)@[progress_key@], self.next_index, self.count),
            ),
    {
        begin_segment(reg, progress_key, self.next_index, self.count);
    }

    /// The segment `next_index` was saved with `len` bytes; the download
    /// pauses when the flag under `pause_key` says so, and otherwise moves
    /// to the next segment.
    pub fn segment_saved(
        &mut self,
        reg: &mut ProgressRegistry,
        progress_key: &str,
        len: u64,
        flags: &CartoonPauseFlags,
        pause_key: &str,
    )
        requires
            old(reg).wf(),
            flags.wf(),
            hls_step_of(*old(self)) == (HlsStep::Fetch { index: old(self).next_index }),
            old(self).downloaded + len <= u64::MAX,
        ensures
            final(reg).wf(),
            hls_wf(*final(self)),
            final(self).count == old(self).count,
            final(self).downloaded == old(self).downloaded + len,
            final(self).paused == paused_in(flags@, pause_key@),
            final(self).next_index == (if final(self).paused {
                old(self).next_index
            } else {
                (old(self).next_index + 1) as usize
            }),
            final(reg)@ == ({
                let saved = update_existing(
                    old(reg)@,
                    progress_key@,
                    with_downloaded(old(reg)@[progress_key@], final(self).downloaded),
                );
                if final(self).paused {
                    update_existing(saved, progress_key@, paused(saved[progress_key@]))
                } else {
                    saved
                }
            }),
    {
        self.downloaded = record_segment(reg, progress_key, self.downloaded, len);
        if is_cartoon_paused(flags, pause_key) {
            mark_paused(reg, progress_key);
            self.paused = true;
        } else {
            self.next_index = self.next_index + 1;
        }
    }

    /// A moment has passed while paused: the download goes on with the
    /// next segment once the flag under `pause_key` no longer says paused.
    pub fn poll_resume(
        &mut self,
        reg: &mut ProgressRegistry,
        progress_key: &str,
        flags: &CartoonPauseFlags,
        pause_key: &str,
    )
        requires
            old(reg).wf(),
            flags.wf(),
            hls_wf(*old(self)),
            hls_step_of(*old(self)) == HlsStep::WaitForResume,
        ensures
            final(reg).wf(),
            hls_wf(*final(self)),
            final(self).count == old(self).count,
            final(self).downloaded == old(self).downloaded,
            paused_in(flags@, pause_key@) ==> *final(self) == *old(self) && final(reg)@ == old(reg)@,
            !paused_in(flags@, pause_key@) ==> {
                &&& !final(self).paused
                &&& final(self).next_index == old(self).next_index + 1
                &&& final(reg)@ == update_existing(
                    old(reg)@,
                    progress_key@,
                    resumed(old(reg)@[progress_key@], old(self).next_index, old(self).count),
                )
            },
    {
        if !is_cartoon_paused(flags, pause_key) {
            mark_resumed(reg, progress_key, self.next_index, self.count);
            self.paused = false;
            self.next_index = self.next_index + 1;
        }
    }
}

/// Every segment from where the download starts up to the end of the
/// playlist is fetched once, in order: each event either keeps the next
/// segment (a pause) or moves to the one after, and the download joins the
/// segments only once every one was fetched.
pub proof fn lemma_hls_steps_in_order(d: HlsDownload)
    requires
        hls_wf(d),
    ensures
        hls_step_of(d) is Join ==> !d.paused && d.next_index >= d.count,
        hls_step_of(d) matches HlsStep::Fetch { index } ==> index == d.next_index && index < d.count,
        hls_step_of(d) is WaitForResume ==> d.paused && d.next_index < d.count,
{
}

} // verus!
