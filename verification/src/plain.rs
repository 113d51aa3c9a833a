//! The course of a plain (single-file) video download: each chunk that
//! arrives waits while the user has paused the download, then is counted.
use vstd::prelude::*;
use crate::pause::{is_cartoon_paused, paused_in, CartoonPauseFlags};
use crate::progress::{after_chunk, record_chunk, update_existing, ProgressRegistry};

verus! {

/// What the plain download does with the chunk that arrived.
#[derive(Clone, Copy, Debug)]
pub enum PlainStep {
    /// Wait a moment, then ask whether the user has resumed.
    WaitForResume,
    /// Write the chunk and report its size.
    Write,
}

/// The state of a plain download.
#[derive(Clone, Copy, Debug)]
pub struct PlainDownload {
    /// The size the server announced (0 when unknown).
    pub total_size: u64,
    /// The bytes written so far.
    pub downloaded: u64,
    /// Whether the chunk that arrived waits for the user to resume.
    pub waiting: bool,
}

/// What the download does next in state `d`.
pub open spec fn plain_step_of(d: PlainDownload) -> PlainStep {
    if d.waiting {
        PlainStep::WaitForResume
    } else {
        PlainStep::Write
    }
}

impl PlainDownload {
    /// Starts a download of a file of `total_size` announced bytes.
    pub fn start(total_size: u64) -> (d: PlainDownload)
        ensures
            d.total_size == total_size,
            d.downloaded == 0,
            !d.waiting,
    {
        PlainDownload { total_size, downloaded: 0, waiting: false }
    }

    /// What the download does next.
    pub fn step(&self) -> (s: PlainStep)
        ensures
            s == plain_step_of(*self),
    {
        if self.waiting {
            PlainStep::WaitForResume
        } else {
            PlainStep::Write
        }
    }

    /// A chunk arrived: it waits when the flag under `pause_key` says paused.
    pub fn chunk_arrived(&mut self, flags: &CartoonPauseFlags, pause_key: &str)
        requires
            flags.wf(),
        ensures
            final(self).waiting == paused_in(flags@, pause_key@),
            final(self).downloaded == old(self).downloaded,
            final(self).total_size == old(self).total_size,
    {
        self.waiting = is_cartoon_paused(flags, pause_key);
    }

    /// A moment has passed while waiting: the chunk goes on once the flag
    /// under `pause_key` no longer says paused.
    pub fn poll_resume(&mut self, flags: &CartoonPauseFlags, pause_key: &str)
        requires
            flags.wf(),
            old(self).waiting,
        ensures
            final(self).waiting == paused_in(flags@, pause_key@),
            final(self).downloaded == old(self).downloaded,
            final(self).total_size == old(self).total_size,
    {
        self.waiting = is_cartoon_paused(flags, pause_key);
    }

    /// The chunk of `len` bytes was written: the count grows by `len` and
    /// the progress record of `progress_key` shows it.
    pub fn chunk_written(&mut self, reg: &mut ProgressRegistry, progress_key: &str, len: u64)
        requires
            old(reg).wf(),
            !old(self).waiting,
            old(self).downloaded + len <= u64::MAX,
        ensures
            final(reg).wf(),
            final(self).downloaded == old(self).downloaded + len,
            final(self).total_size == old(self).total_size,
            !final(self).waiting,
            final(reg)@ == update_existing(
                old(reg)@,
                progress_key@,
                after_chunk(old(reg)@[progress_key@], final(self).downloaded, old(self).total_size),
            ),
    {
        self.downloaded = record_chunk(reg, progress_key, self.downloaded, len, self.total_size);
    }
}

} // verus!
