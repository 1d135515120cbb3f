//! Byte accounting of one chunk transfer.
//!
//! The unverified worker streams the response body; for every received
//! buffer it advances a `TransferSession` and hands the returned progress
//! record to the caller's sink.  All arithmetic of the worker lives here.

use vstd::prelude::*;

use crate::task::{DownloadProgress, DownloadStatus};
use crate::text::{dec_str, u64_to_dec};

verus! {

/// Progress percentage: `min(100, downloaded * 100 / total)`, 0 while the
/// total is unknown.
pub open spec fn progress_pct(downloaded: int, total: int) -> int {
    if total <= 0 {
        0
    } else if downloaded * 100 / total > 100 {
        100
    } else {
        downloaded * 100 / total
    }
}

pub fn compute_progress(downloaded: u64, total: u64) -> (p: u64)
    ensures
        p == progress_pct(downloaded as int, total as int),
        p <= 100,
{
    if total == 0 {
        0
    } else {
        let q: u128 = (downloaded as u128) * 100 / (total as u128);
        if q > 100 {
            100
        } else {
            q as u64
        }
    }
}

/// Throughput in bytes per second from a millisecond clock, capped at
/// `u64::MAX`.  An elapsed time of zero is treated as one millisecond.
pub open spec fn session_speed(session_bytes: int, elapsed_ms: int) -> int {
    let ms = if elapsed_ms < 1 {
        1
    } else {
        elapsed_ms
    };
    let q = session_bytes * 1000 / ms;
    if q > u64::MAX {
        u64::MAX as int
    } else {
        q
    }
}

pub fn compute_speed(session_bytes: u64, elapsed_ms: u64) -> (s: u64)
    ensures
        s == session_speed(session_bytes as int, elapsed_ms as int),
{
    let ms: u128 = if elapsed_ms < 1 {
        1
    } else {
        elapsed_ms as u128
    };
    let q: u128 = (session_bytes as u128) * 1000 / ms;
    if q > u64::MAX as u128 {
        u64::MAX
    } else {
        q as u64
    }
}

/// The value of the byte-range request header: `bytes=<start>-<end>`.
pub fn range_header_value(start: u64, end: u64) -> (s: String)
    ensures
        s@ == "bytes="@ + dec_str(start as int) + "-"@ + dec_str(end as int),
{
    let mut s = String::new();
    s.append("bytes=");
    let d1 = u64_to_dec(start);
    s.append(d1.as_str());
    s.append("-");
    let d2 = u64_to_dec(end);
    s.append(d2.as_str());
    proof {
        assert(s@ =~= "bytes="@ + dec_str(start as int) + "-"@ + dec_str(end as int));
    }
    s
}

/// Everything the unverified worker needs to stream one chunk: the request
/// to issue, the file position to write at, and the figures the progress
/// math starts from.
pub struct TransferJob {
    pub task_id: String,
    pub url: String,
    pub dest_path: String,
    pub chunk_id: usize,
    /// Chunk bytes already confirmed before this session.
    pub already: u64,
    /// First byte requested; also the file offset the worker seeks to.
    pub range_start: u64,
    /// Last byte of the chunk's range, inclusive.
    pub range_end: u64,
    /// Whether to send a byte-range header; full requests omit it.
    pub use_range: bool,
    /// Task-level bytes already confirmed; excluded from the speed figure.
    pub resume_offset: u64,
    pub total_size: u64,
    /// Whether a digest check is owed after the stream ends.
    pub has_checksum: bool,
}

/// Mutable accounting state of one running chunk transfer.
///
/// `write_offset` is the next byte position of the destination file; it
/// starts at the resume point and only ever moves forward, so a resumed
/// transfer never rewrites the bytes that were already on disk.
pub struct TransferSession {
    pub task_id: String,
    pub chunk_id: usize,
    pub total_size: u64,
    /// Task-level bytes already confirmed when this session began; these
    /// are excluded from the speed figure.
    pub resume_offset: u64,
    /// Bytes recorded for this chunk, including its prior offset.
    pub chunk_downloaded: u64,
    /// Task-level downloaded-byte counter.
    pub total_downloaded: u64,
    /// Next byte offset in the destination file.
    pub write_offset: u64,
}

impl TransferSession {
    /// Open the accounting for a job handed out by the manager.
    pub fn begin(job: &TransferJob) -> (s: TransferSession)
        ensures
            s.task_id@ == job.task_id@,
            s.chunk_id == job.chunk_id,
            s.total_size == job.total_size,
            s.resume_offset == job.resume_offset,
            s.chunk_downloaded == job.already,
            s.total_downloaded == job.resume_offset,
            s.write_offset == job.range_start,
    {
        TransferSession {
            task_id: job.task_id.clone(),
            chunk_id: job.chunk_id,
            total_size: job.total_size,
            resume_offset: job.resume_offset,
            chunk_downloaded: job.already,
            total_downloaded: job.resume_offset,
            write_offset: job.range_start,
        }
    }

    /// Record one received buffer of `n` bytes and produce the progress
    /// report for the caller's sink.
    pub fn on_buffer(&mut self, n: usize, elapsed_ms: u64) -> (p: DownloadProgress)
        requires
            old(self).total_downloaded + n <= u64::MAX,
            old(self).chunk_downloaded + n <= u64::MAX,
            old(self).write_offset + n <= u64::MAX,
        ensures
            final(self).task_id@ == old(self).task_id@,
            final(self).chunk_id == old(self).chunk_id,
            final(self).total_size == old(self).total_size,
            final(self).resume_offset == old(self).resume_offset,
            final(self).chunk_downloaded == old(self).chunk_downloaded + n,
            final(self).total_downloaded == old(self).total_downloaded + n,
            final(self).write_offset == old(self).write_offset + n,
            p.task_id@ == old(self).task_id@,
            p.downloaded_size == final(self).total_downloaded,
            p.total_size == old(self).total_size,
            p.progress == progress_pct(
                final(self).total_downloaded as int,
                old(self).total_size as int,
            ),
            p.speed == session_speed(
                if final(self).total_downloaded >= old(self).resume_offset {
                    final(self).total_downloaded - old(self).resume_offset
                } else {
                    0
                },
                elapsed_ms as int,
            ),
            p.status is Downloading,
            p.error is None,
    {
        let bytes = n as u64;
        self.chunk_downloaded = self.chunk_downloaded + bytes;
        self.total_downloaded = self.total_downloaded + bytes;
        self.write_offset = self.write_offset + bytes;
        let session_bytes = self.total_downloaded.saturating_sub(self.resume_offset);
        let speed = compute_speed(session_bytes, elapsed_ms);
        let progress = compute_progress(self.total_downloaded, self.total_size);
        DownloadProgress {
            task_id: self.task_id.clone(),
            downloaded_size: self.total_downloaded,
            total_size: self.total_size,
            progress,
            speed,
            status: DownloadStatus::Downloading,
            error: Option::None,
        }
    }
}

} // verus!
