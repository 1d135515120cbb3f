//! The download manager: the authoritative task table and its state machine.
//!
//! The manager owns every task exclusively.  Callers drive it through
//! `create_task`, `start_task`, `begin_transfer`, `finish_chunk`,
//! `begin_verification`, `finish_task`, `pause_task` and `cancel_task`;
//! the unverified shell performs the network and file work between those
//! calls and feeds the observed values (probe results, on-disk lengths,
//! byte counts) back in.

use vstd::prelude::*;

use crate::error::DownloadError;
use crate::limiter::PermitPool;
use crate::task::{
    chunk_wf, chunks_downloaded_sum, is_terminal, opt_str_eq, paused_version, same_chunks,
    same_identity, sum_chunks, task_eq, DownloadChunk, DownloadStatus, DownloadTask,
};
use crate::text::str_eq;
use crate::transfer::{progress_pct, TransferJob};

verus! {

/// How the total size of a new task was determined.
pub enum SizeProbe {
    /// Supplied by the caller (e.g. from an API manifest); trusted as is,
    /// no metadata probe was made.
    Known(u64),
    /// Reported by the metadata probe; 0 when the response carried no
    /// usable content length.
    Probed(u64),
    /// The metadata probe could not complete.
    Failed,
}

pub open spec fn probe_total(size: SizeProbe) -> u64 {
    match size {
        SizeProbe::Known(s) => s,
        SizeProbe::Probed(s) => s,
        SizeProbe::Failed => 0,
    }
}

/// What `start_task` hands back: either the task was already complete on
/// disk, or a transfer to run.
pub enum StartOutcome {
    AlreadyComplete,
    Transfer(TransferJob),
}

/// The record a freshly created task must carry.
pub open spec fn is_new_task(
    t: DownloadTask,
    id: Seq<char>,
    game_id: Seq<char>,
    name: Seq<char>,
    url: Seq<char>,
    dest_path: Seq<char>,
    total_size: u64,
    sha256: Option<String>,
    md5: Option<String>,
    created_at: u64,
) -> bool {
    &&& t.id@ == id
    &&& t.game_id@ == game_id
    &&& t.name@ == name
    &&& t.dest_path@ == dest_path
    &&& t.total_size == total_size
    &&& t.downloaded_size == 0
    &&& t.progress == 0
    &&& t.speed == 0
    &&& t.status is Pending
    &&& t.error is None
    &&& t.created_at == created_at
    &&& t.chunks@.len() == 1
    &&& t.chunks@[0].id == 0
    &&& t.chunks@[0].url@ == url
    &&& t.chunks@[0].start == 0
    &&& t.chunks@[0].end == if total_size > 0 {
        total_size - 1
    } else {
        0
    }
    &&& t.chunks@[0].downloaded == 0
    &&& !t.chunks@[0].completed
    &&& opt_str_eq(t.sha256, sha256)
    &&& opt_str_eq(t.md5, md5)
}

/// `u` is `t` set Completed: progress pinned to 100, any stale error
/// cleared, everything else untouched.
pub open spec fn completed_version(t: DownloadTask, u: DownloadTask) -> bool {
    &&& same_identity(t, u)
    &&& same_chunks(t, u)
    &&& u.downloaded_size == t.downloaded_size
    &&& u.progress == 100
    &&& u.speed == t.speed
    &&& u.status is Completed
    &&& u.error is None
}

/// `u` is `t` reconciled against a partial file of `on_disk` bytes: the
/// chunk and the task resume from that offset.
pub open spec fn resumed_version(t: DownloadTask, u: DownloadTask, on_disk: u64) -> bool {
    &&& same_identity(t, u)
    &&& u.chunks@.len() == t.chunks@.len() == 1
    &&& u.chunks@[0].id == t.chunks@[0].id
    &&& u.chunks@[0].url@ == t.chunks@[0].url@
    &&& u.chunks@[0].start == t.chunks@[0].start
    &&& u.chunks@[0].end == t.chunks@[0].end
    &&& u.chunks@[0].downloaded == on_disk
    &&& !u.chunks@[0].completed
    &&& u.downloaded_size == on_disk
    &&& u.progress == progress_pct(on_disk as int, t.total_size as int)
    &&& u.speed == t.speed
    &&& u.status is Downloading
    &&& u.error is None
}

/// `u` is `t` verifying its digest.
pub open spec fn verifying_version(t: DownloadTask, u: DownloadTask) -> bool {
    &&& same_identity(t, u)
    &&& same_chunks(t, u)
    &&& u.downloaded_size == t.downloaded_size
    &&& u.progress == t.progress
    &&& u.speed == t.speed
    &&& u.status is Verifying
    &&& u.error is None
}

/// `u` is `t` failed with the given error's message.
pub open spec fn errored_version(t: DownloadTask, u: DownloadTask, e: DownloadError) -> bool {
    &&& same_identity(t, u)
    &&& same_chunks(t, u)
    &&& u.downloaded_size == t.downloaded_size
    &&& u.progress == t.progress
    &&& u.speed == t.speed
    &&& u.status is Error
    &&& u.error matches Option::Some(m) && m@ == crate::error::error_message_view(e)
}

/// The downloaded count a finished chunk records: what the worker counted,
/// clamped to the chunk's declared range when the total is known.
pub open spec fn clamped_downloaded(c: DownloadChunk, total_size: u64, downloaded: u64) -> int {
    if total_size > 0 && downloaded > c.end - c.start + 1 {
        c.end - c.start + 1
    } else {
        downloaded as int
    }
}

/// `u` is `t` after its chunk `chunk_id` finished streaming: the chunk is
/// marked completed and the task's byte counter is re-derived as the sum
/// across chunks.
pub open spec fn chunk_finished_version(
    t: DownloadTask,
    u: DownloadTask,
    chunk_id: usize,
    downloaded: u64,
) -> bool {
    &&& same_identity(t, u)
    &&& u.status == t.status
    &&& u.speed == t.speed
    &&& u.progress == t.progress
    &&& opt_str_eq(u.error, t.error)
    &&& if t.chunks@.len() == 1 && t.chunks@[0].id == chunk_id {
        &&& u.chunks@.len() == 1
        &&& u.chunks@[0].id == t.chunks@[0].id
        &&& u.chunks@[0].url@ == t.chunks@[0].url@
        &&& u.chunks@[0].start == t.chunks@[0].start
        &&& u.chunks@[0].end == t.chunks@[0].end
        &&& u.chunks@[0].downloaded == clamped_downloaded(t.chunks@[0], t.total_size, downloaded)
        &&& u.chunks@[0].completed
        &&& u.downloaded_size == chunks_downloaded_sum(u.chunks@)
    } else {
        same_chunks(t, u) && u.downloaded_size == t.downloaded_size
    }
}

/// What `start_task` does to the addressed task, decided by the on-disk
/// length against the task's total size.
pub open spec fn start_effect(
    t: DownloadTask,
    u: DownloadTask,
    outcome: StartOutcome,
    task_id: Seq<char>,
    on_disk: u64,
) -> bool {
    if t.total_size > 0 && on_disk >= t.total_size {
        outcome is AlreadyComplete && completed_version(t, u)
    } else {
        let offset: u64 = if on_disk > 0 && on_disk < t.total_size {
            on_disk
        } else {
            0
        };
        &&& resumed_version(t, u, offset)
        &&& outcome matches StartOutcome::Transfer(job) && {
            &&& job.task_id@ == task_id
            &&& job.url@ == t.chunks@[0].url@
            &&& job.dest_path@ == t.dest_path@
            &&& job.chunk_id == t.chunks@[0].id
            &&& job.already == offset
            &&& job.range_start == t.chunks@[0].start + offset
            &&& job.range_end == t.chunks@[0].end
            &&& job.use_range == (job.range_start > 0)
            &&& job.resume_offset == offset
            &&& job.total_size == t.total_size
            &&& job.has_checksum == (t.sha256 is Some || t.md5 is Some)
        }
    }
}

/// The record is a faithful copy of some task in `tasks`.
pub open spec fn from_store(t: DownloadTask, tasks: Seq<DownloadTask>) -> bool {
    exists|i: int| 0 <= i < tasks.len() && task_eq(t, #[trigger] tasks[i])
}

/// Every record in `r` is a faithful copy of some task in `tasks`.
pub open spec fn all_from(r: Seq<DownloadTask>, tasks: Seq<DownloadTask>) -> bool {
    forall|k: int| 0 <= k < r.len() ==> from_store(#[trigger] r[k], tasks)
}

/// The record is a faithful copy of one of the first `n` tasks.
spec fn from_first(t: DownloadTask, tasks: Seq<DownloadTask>, n: int) -> bool {
    exists|i: int| 0 <= i < n && task_eq(t, #[trigger] tasks[i])
}

/// Every record in `r` is a faithful copy of one of the first `n` tasks.
spec fn all_from_first(r: Seq<DownloadTask>, tasks: Seq<DownloadTask>, n: int) -> bool {
    forall|k: int| 0 <= k < r.len() ==> from_first(#[trigger] r[k], tasks, n)
}

proof fn lemma_all_from_first_widen(r: Seq<DownloadTask>, tasks: Seq<DownloadTask>, n: int)
    requires
        all_from_first(r, tasks, n),
    ensures
        all_from_first(r, tasks, n + 1),
{
    assert forall|k: int| 0 <= k < r.len() implies from_first(#[trigger] r[k], tasks, n + 1) by {
        assert(from_first(r[k], tasks, n));
        let i = choose|i: int| 0 <= i < n && task_eq(r[k], #[trigger] tasks[i]);
        assert(0 <= i < n + 1 && task_eq(r[k], tasks[i]));
    }
}

/// Appending a copy of task `i` keeps the snapshot's records sourced from
/// the first `i + 1` tasks and its ids unique.
proof fn lemma_persist_step(
    before: Seq<DownloadTask>,
    out: Seq<DownloadTask>,
    tasks: Seq<DownloadTask>,
    i: int,
)
    requires
        ids_unique(tasks),
        0 <= i < tasks.len(),
        out.len() == before.len() + 1,
        forall|k: int| 0 <= k < before.len() ==> #[trigger] out[k] == before[k],
        task_eq(out[before.len() as int], tasks[i]),
        all_from_first(before, tasks, i),
        ids_unique(before),
    ensures
        all_from_first(out, tasks, i + 1),
        ids_unique(out),
{
    assert forall|k: int| 0 <= k < out.len() implies from_first(
        #[trigger] out[k],
        tasks,
        i + 1,
    ) by {
        if k < before.len() {
            assert(out[k] == before[k]);
            assert(from_first(before[k], tasks, i));
            let j = choose|j: int| 0 <= j < i && task_eq(before[k], #[trigger] tasks[j]);
            assert(0 <= j < i + 1 && task_eq(out[k], tasks[j]));
        } else {
            assert(task_eq(out[k], tasks[i]));
        }
    }
    assert forall|k1: int, k2: int| 0 <= k1 < k2 < out.len() implies (#[trigger] out[k1].id@) != (
    #[trigger] out[k2].id@) by {
        if k2 == before.len() {
            assert(out[k1] == before[k1]);
            assert(from_first(before[k1], tasks, i));
            let j = choose|j: int| 0 <= j < i && task_eq(before[k1], #[trigger] tasks[j]);
            assert(tasks[j].id@ != tasks[i].id@);
            assert(out[k1].id@ == tasks[j].id@);
            assert(out[k2].id@ == tasks[i].id@);
        } else {
            assert(out[k1] == before[k1] && out[k2] == before[k2]);
            assert(before[k1].id@ != before[k2].id@);
        }
    }
}

/// A snapshot wholly sourced from a store with unique ids repeats no
/// terminal task's id.
proof fn lemma_persist_post(out: Seq<DownloadTask>, tasks: Seq<DownloadTask>)
    requires
        ids_unique(tasks),
        all_from_first(out, tasks, tasks.len() as int),
        forall|k: int| 0 <= k < out.len() ==> !is_terminal((#[trigger] out[k]).status),
    ensures
        all_from(out, tasks),
        forall|a: int, k: int|
            0 <= a < tasks.len() && is_terminal((#[trigger] tasks[a]).status) && 0 <= k < out.len()
                ==> (#[trigger] out[k]).id@ != tasks[a].id@,
{
    assert forall|k: int| 0 <= k < out.len() implies from_store(#[trigger] out[k], tasks) by {
        assert(from_first(out[k], tasks, tasks.len() as int));
        let j = choose|j: int| 0 <= j < tasks.len() as int && task_eq(out[k], #[trigger] tasks[j]);
        assert(0 <= j < tasks.len() && task_eq(out[k], tasks[j]));
    }
    assert forall|a: int, k: int|
        0 <= a < tasks.len() && is_terminal((#[trigger] tasks[a]).status) && 0 <= k < out.len()
            implies (#[trigger] out[k]).id@ != tasks[a].id@ by {
        assert(from_first(out[k], tasks, tasks.len() as int));
        let j = choose|j: int| 0 <= j < tasks.len() as int && task_eq(out[k], #[trigger] tasks[j]);
        if out[k].id@ == tasks[a].id@ {
            assert(tasks[j].id@ == tasks[a].id@);
            if j != a {
                assert(tasks[a].id@ != tasks[j].id@);
            }
            assert(is_terminal(out[k].status));
        }
    }
}

/// The task is a copy of a demoted snapshot record among the first `n`,
/// or is one of the store's own prior records, unchanged.
pub open spec fn from_snapshot_or_store(
    t: DownloadTask,
    saved: Seq<DownloadTask>,
    n: int,
    orig: Seq<DownloadTask>,
) -> bool {
    (exists|j: int| 0 <= j < n && task_eq(t, demoted_task(#[trigger] saved[j]))) || (exists|i: int|
        0 <= i < orig.len() && t == #[trigger] orig[i])
}

proof fn lemma_from_widen(t: DownloadTask, saved: Seq<DownloadTask>, n: int, orig: Seq<
    DownloadTask,
>)
    requires
        from_snapshot_or_store(t, saved, n, orig),
    ensures
        from_snapshot_or_store(t, saved, n + 1, orig),
{
    if exists|j: int| 0 <= j < n && task_eq(t, demoted_task(#[trigger] saved[j])) {
        let j = choose|j: int| 0 <= j < n && task_eq(t, demoted_task(#[trigger] saved[j]));
        assert(0 <= j < n + 1 && task_eq(t, demoted_task(saved[j])));
    }
}

/// The record a stale save demotes to on load: a status saved mid-transfer
/// becomes Paused with zero speed; anything else is kept as is.
pub open spec fn demoted_task(t: DownloadTask) -> DownloadTask {
    if t.status is Downloading || t.status is Verifying {
        (DownloadTask { status: DownloadStatus::Paused, speed: 0, ..t })
    } else {
        t
    }
}

/// Removing the task with one id keeps every task with another id.
proof fn lemma_cancel_keeps_others(pre: Seq<DownloadTask>, post: Seq<DownloadTask>, rid: Seq<char>)
    requires
        (exists|d: int| 0 <= d < pre.len() && pre[d].id@ == rid && post == pre.remove(d)) || post
            == pre,
    ensures
        forall|k: int|
            0 <= k < pre.len() && (#[trigger] pre[k].id@) != rid ==> exists|m: int|
                0 <= m < post.len() && post[m] == pre[k],
{
    if exists|d: int| 0 <= d < pre.len() && pre[d].id@ == rid && post == pre.remove(d) {
        let d = choose|d: int| 0 <= d < pre.len() && pre[d].id@ == rid && post == pre.remove(d);
        assert forall|k: int|
            0 <= k < pre.len() && (#[trigger] pre[k].id@) != rid implies exists|m: int|
            0 <= m < post.len() && post[m] == pre[k] by {
            if k < d {
                assert(post[k] == pre[k]);
            } else {
                assert(k != d);
                assert(post[k - 1] == pre[k]);
            }
        }
    } else {
        assert(post == pre);
        assert forall|k: int|
            0 <= k < pre.len() && (#[trigger] pre[k].id@) != rid implies exists|m: int|
            0 <= m < post.len() && post[m] == pre[k] by {
            assert(post[k] == pre[k]);
        }
    }
}

/// Relies on uuid::Uuid::new_v4 for a fresh random identifier; nothing is
/// assumed about the value it renders to.
#[verifier::external_body]
fn new_task_id() -> (id: String) {
    uuid::Uuid::new_v4().to_string()
}

/// Some task in `tasks` carries the given id.
pub open spec fn has_task(tasks: Seq<DownloadTask>, id: Seq<char>) -> bool {
    exists|i: int| 0 <= i < tasks.len() && tasks[i].id@ == id
}

/// No two tasks share an id.
pub open spec fn ids_unique(tasks: Seq<DownloadTask>) -> bool {
    forall|i: int, j: int|
        0 <= i < j < tasks.len() ==> (#[trigger] tasks[i].id@) != (#[trigger] tasks[j].id@)
}

/// The id belongs to a task that is mid-transfer or verifying.
pub open spec fn active_id_ok(tasks: Seq<DownloadTask>, id: Seq<char>) -> bool {
    exists|j: int|
        0 <= j < tasks.len() && tasks[j].id@ == id && (tasks[j].status is Downloading
            || tasks[j].status is Verifying)
}

/// The id occurs in the permit-holder list.
pub open spec fn id_in(active: Seq<String>, id: Seq<char>) -> bool {
    exists|j: int| 0 <= j < active.len() && active[j]@ == id
}

pub struct DownloadManager {
    pub tasks: Vec<DownloadTask>,
    pub pool: PermitPool,
    /// Ids of tasks currently holding a transfer permit.
    pub active: Vec<String>,
}

impl DownloadManager {
    /// The manager's invariant: a well-formed, uniquely keyed task table,
    /// and a permit accounted to each mid-transfer task, never more than
    /// the pool's capacity.
    pub open spec fn wf(&self) -> bool {
        &&& ids_unique(self.tasks@)
        &&& forall|i: int| 0 <= i < self.tasks@.len() ==> (#[trigger] self.tasks@[i]).wf()
        &&& self.pool.wf()
        &&& self.active@.len() == self.pool.in_use
        &&& forall|i: int, j: int|
            0 <= i < j < self.active@.len() ==> (#[trigger] self.active@[i]@) != (
            #[trigger] self.active@[j]@)
        &&& forall|i: int|
            0 <= i < self.active@.len() ==> active_id_ok(self.tasks@, #[trigger] self.active@[i]@)
    }

    /// `max_concurrent` bounds how many tasks may be mid-transfer at once.
    pub fn new(max_concurrent: usize) -> (m: Self)
        ensures
            m.wf(),
            m.tasks@.len() == 0,
            m.active@.len() == 0,
            m.pool.capacity == max_concurrent,
            m.pool.in_use == 0,
    {
        DownloadManager {
            tasks: Vec::new(),
            pool: PermitPool::new(max_concurrent),
            active: Vec::new(),
        }
    }

    /// Index of the task with the given id, if any.
    fn find_index(&self, task_id: &str) -> (r: Option<usize>)
        ensures
            match r {
                Option::Some(i) => i < self.tasks@.len() && self.tasks@[i as int].id@ == task_id@,
                Option::None => !has_task(self.tasks@, task_id@),
            },
    {
        let n = self.tasks.len();
        let mut i: usize = 0;
        while i < n
            invariant
                n == self.tasks@.len(),
                i <= n,
                forall|j: int| 0 <= j < i ==> (#[trigger] self.tasks@[j].id@) != task_id@,
            decreases n - i,
        {
            if str_eq(self.tasks[i].id.as_str(), task_id) {
                return Option::Some(i);
            }
            i = i + 1;
        }
        Option::None
    }

    /// Index of the given id in the permit-holder list, if present.
    fn active_index(&self, task_id: &str) -> (r: Option<usize>)
        ensures
            match r {
                Option::Some(i) => i < self.active@.len() && self.active@[i as int]@ == task_id@,
                Option::None => forall|j: int|
                    0 <= j < self.active@.len() ==> (#[trigger] self.active@[j]@) != task_id@,
            },
    {
        let n = self.active.len();
        let mut i: usize = 0;
        while i < n
            invariant
                n == self.active@.len(),
                i <= n,
                forall|j: int| 0 <= j < i ==> (#[trigger] self.active@[j]@) != task_id@,
            decreases n - i,
        {
            if str_eq(self.active[i].as_str(), task_id) {
                return Option::Some(i);
            }
            i = i + 1;
        }
        Option::None
    }

    /// Give the task's permit back, if it holds one.  The task table is not
    /// touched.
    fn release_if_active(&mut self, task_id: &str)
        requires
            old(self).wf(),
        ensures
            final(self).wf(),
            final(self).tasks == old(self).tasks,
            final(self).pool.capacity == old(self).pool.capacity,
            !id_in(final(self).active@, task_id@),
            forall|j: int|
                0 <= j < old(self).active@.len() && (#[trigger] old(self).active@[j]@) != task_id@
                    ==> id_in(final(self).active@, old(self).active@[j]@),
            forall|k: int|
                0 <= k < final(self).active@.len() ==> id_in(
                    old(self).active@,
                    #[trigger] final(self).active@[k]@,
                ),
    {
        match self.active_index(task_id) {
            Option::Some(i) => {
                let ghost before = self.active@;
                self.active.remove(i);
                self.pool.release();
                proof {
                    assert forall|j: int|
                        0 <= j < before.len() && (#[trigger] before[j]@) != task_id@ implies id_in(
                        self.active@,
                        before[j]@,
                    ) by {
                        if j < i {
                            assert(self.active@[j]@ == before[j]@);
                        } else {
                            assert(j > i);
                            assert(self.active@[j - 1]@ == before[j]@);
                        }
                    }
                    assert forall|k: int| 0 <= k < self.active@.len() implies id_in(
                        before,
                        #[trigger] self.active@[k]@,
                    ) by {
                        if k < i {
                            assert(before[k]@ == self.active@[k]@);
                        } else {
                            assert(before[k + 1]@ == self.active@[k]@);
                        }
                    }
                    assert forall|j: int|
                        0 <= j < self.active@.len() implies (#[trigger] self.active@[j]@)
                        != task_id@ by {
                        if j < i {
                            assert(before[j]@ != before[i as int]@);
                        } else {
                            assert(before[j + 1]@ != before[i as int]@);
                        }
                    }
                }
            },
            Option::None => {
                proof {
                    assert forall|k: int| 0 <= k < self.active@.len() implies id_in(
                        self.active@,
                        #[trigger] self.active@[k]@,
                    ) by {
                        assert(0 <= k < self.active@.len() && self.active@[k]@
                            == self.active@[k]@);
                    }
                }
            },
        }
    }

    /// Interrupt the task's worker if one is active and mark the task
    /// Paused with zero speed.  Pausing a missing, already-paused or
    /// terminal task is a no-op success.
    pub fn pause_task(&mut self, task_id: &str) -> (r: Result<(), DownloadError>)
        requires
            old(self).wf(),
        ensures
            final(self).wf(),
            r is Ok,
            final(self).pool.capacity == old(self).pool.capacity,
            final(self).tasks@.len() == old(self).tasks@.len(),
            forall|i: int|
                0 <= i < old(self).tasks@.len() ==> {
                    let t = #[trigger] old(self).tasks@[i];
                    let u = final(self).tasks@[i];
                    if t.id@ == task_id@ && !is_terminal(t.status) {
                        paused_version(t, u)
                    } else {
                        task_eq(u, t)
                    }
                },
            !id_in(final(self).active@, task_id@),
    {
        self.release_if_active(task_id);
        let ghost mid = *self;
        match self.find_index(task_id) {
            Option::Some(i) => {
                if !(self.tasks[i].status == DownloadStatus::Completed || self.tasks[i].status
                    == DownloadStatus::Error) {
                    let mut t = self.tasks[i].snapshot();
                    t.status = DownloadStatus::Paused;
                    t.speed = 0;
                    proof {
                        crate::task::lemma_chunk_sum_eq(t.chunks@, self.tasks@[i as int].chunks@);
                    }
                    self.tasks.set(i, t);
                    proof {
                        assert forall|k: int|
                            0 <= k < self.active@.len() implies active_id_ok(
                            self.tasks@,
                            #[trigger] self.active@[k]@,
                        ) by {
                            assert(active_id_ok(mid.tasks@, self.active@[k]@));
                            let j = choose|j: int|
                                0 <= j < mid.tasks@.len() && mid.tasks@[j].id@ == self.active@[k]@
                                    && (mid.tasks@[j].status is Downloading
                                    || mid.tasks@[j].status is Verifying);
                            assert(j != i);
                            assert(self.tasks@[j].id@ == self.active@[k]@);
                        }
                        assert forall|a: int, b: int|
                            0 <= a < b < self.tasks@.len() implies (#[trigger] self.tasks@[a].id@)
                            != (#[trigger] self.tasks@[b].id@) by {
                            assert(mid.tasks@[a].id@ != mid.tasks@[b].id@);
                        }
                    }
                }
            },
            Option::None => {},
        }
        Result::Ok(())
    }

    /// Interrupt any active worker and remove the task from the store
    /// entirely.  The partially downloaded file on disk is left untouched.
    pub fn cancel_task(&mut self, task_id: &str) -> (r: Result<(), DownloadError>)
        requires
            old(self).wf(),
        ensures
            final(self).wf(),
            r is Ok,
            final(self).pool.capacity == old(self).pool.capacity,
            !has_task(final(self).tasks@, task_id@),
            if has_task(old(self).tasks@, task_id@) {
                exists|i: int|
                    0 <= i < old(self).tasks@.len() && (#[trigger] old(self).tasks@[i]).id@
                        == task_id@ && final(self).tasks@ == old(self).tasks@.remove(i)
            } else {
                final(self).tasks@ == old(self).tasks@
            },
            !id_in(final(self).active@, task_id@),
    {
        self.release_if_active(task_id);
        let ghost mid = *self;
        match self.find_index(task_id) {
            Option::Some(i) => {
                self.tasks.remove(i);
                proof {
                    assert forall|a: int, b: int|
                        0 <= a < b < self.tasks@.len() implies (#[trigger] self.tasks@[a].id@) != (
                        #[trigger] self.tasks@[b].id@) by {
                        let a0 = if a < i {
                            a
                        } else {
                            a + 1
                        };
                        let b0 = if b < i {
                            b
                        } else {
                            b + 1
                        };
                        assert(mid.tasks@[a0].id@ != mid.tasks@[b0].id@);
                    }
                    assert forall|j: int|
                        0 <= j < self.tasks@.len() implies (#[trigger] self.tasks@[j]).wf() by {
                        if j < i {
                            assert(self.tasks@[j] == mid.tasks@[j]);
                        } else {
                            assert(self.tasks@[j] == mid.tasks@[j + 1]);
                        }
                    }
                    assert forall|j: int|
                        0 <= j < self.tasks@.len() implies (#[trigger] self.tasks@[j]).id@
                        != task_id@ by {
                        if j < i {
                            assert(mid.tasks@[j].id@ != mid.tasks@[i as int].id@);
                        } else {
                            assert(self.tasks@[j] == mid.tasks@[j + 1]);
                            assert(mid.tasks@[j + 1].id@ != mid.tasks@[i as int].id@);
                        }
                    }
                    assert forall|k: int|
                        0 <= k < self.active@.len() implies active_id_ok(
                        self.tasks@,
                        #[trigger] self.active@[k]@,
                    ) by {
                        assert(active_id_ok(mid.tasks@, self.active@[k]@));
                        let j = choose|j: int|
                            0 <= j < mid.tasks@.len() && mid.tasks@[j].id@ == self.active@[k]@ && (
                            mid.tasks@[j].status is Downloading
                                || mid.tasks@[j].status is Verifying);
                        assert(self.active@[k]@ != task_id@);
                        assert(j != i);
                        if j < i {
                            assert(self.tasks@[j] == mid.tasks@[j]);
                        } else {
                            assert(self.tasks@[j - 1] == mid.tasks@[j]);
                        }
                    }
                }
            },
            Option::None => {},
        }
        Result::Ok(())
    }

    /// Create a new single-chunk task spanning the whole byte range, status
    /// Pending.  When the caller knows the size, no probe was made; when
    /// the probe failed, creation fails with `ProbeFailed` and the store is
    /// untouched.
    pub fn create_task(
        &mut self,
        game_id: String,
        name: String,
        url: String,
        dest_path: String,
        size: SizeProbe,
        sha256: Option<String>,
        md5: Option<String>,
        created_at: u64,
    ) -> (r: Result<String, DownloadError>)
        requires
            old(self).wf(),
        ensures
            final(self).wf(),
            final(self).pool.capacity == old(self).pool.capacity,
            size is Failed ==> r is Err && r->Err_0 is ProbeFailed && final(self).tasks@ == old(
                self,
            ).tasks@ && final(self).active@ == old(self).active@,
            !(size is Failed) ==> r is Ok && {
                let rid = r->Ok_0;
                &&& exists|k: int|
                    0 <= k < final(self).tasks@.len() && is_new_task(
                        #[trigger] final(self).tasks@[k],
                        rid@,
                        game_id@,
                        name@,
                        url@,
                        dest_path@,
                        probe_total(size),
                        sha256,
                        md5,
                        created_at,
                    )
                &&& forall|i: int|
                    0 <= i < old(self).tasks@.len() && (#[trigger] old(self).tasks@[i]).id@ != rid@
                        ==> exists|k: int|
                        0 <= k < final(self).tasks@.len() && task_eq(
                            #[trigger] final(self).tasks@[k],
                            old(self).tasks@[i],
                        )
                &&& forall|k: int|
                    0 <= k < final(self).tasks@.len() ==> (#[trigger] final(self).tasks@[k]).id@
                        == rid@ || exists|i: int|
                        0 <= i < old(self).tasks@.len() && task_eq(
                            final(self).tasks@[k],
                            #[trigger] old(self).tasks@[i],
                        )
            },
    {
        let total_size: u64 = match size {
            SizeProbe::Known(s) => s,
            SizeProbe::Probed(s) => s,
            SizeProbe::Failed => {
                return Result::Err(DownloadError::ProbeFailed);
            },
        };
        let task_id = new_task_id();
        let ghost pre = self.tasks@;
        // A colliding id replaces the previous record, as a keyed insert
        // would; the odds with random ids are negligible.
        let _ = self.cancel_task(task_id.as_str());
        let ghost mid = self.tasks@;
        let end: u64 = if total_size > 0 {
            total_size - 1
        } else {
            0
        };
        let chunk = DownloadChunk {
            id: 0,
            url,
            start: 0,
            end,
            downloaded: 0,
            completed: false,
        };
        let mut chunks: Vec<DownloadChunk> = Vec::new();
        chunks.push(chunk);
        let task = DownloadTask {
            id: task_id.clone(),
            game_id,
            name,
            dest_path,
            total_size,
            downloaded_size: 0,
            progress: 0,
            speed: 0,
            status: DownloadStatus::Pending,
            error: Option::None,
            created_at,
            chunks,
            sha256,
            md5,
        };
        proof {
            crate::task::lemma_single_chunk_sum(task.chunks@);
            assert(task.wf());
        }
        self.tasks.push(task);
        proof {
            let fin = self.tasks@;
            let last = fin.len() - 1;
            assert(ids_unique(mid));
            assert(forall|j: int| 0 <= j < mid.len() ==> fin[j] == mid[j]);
            assert(fin[last].id@ == task_id@);
            assert forall|a: int, b: int| 0 <= a < b < fin.len() implies (
            #[trigger] fin[a].id@) != (#[trigger] fin[b].id@) by {
                if b == last {
                    assert(fin[a] == mid[a]);
                    if mid[a].id@ == task_id@ {
                        assert(has_task(mid, task_id@));
                    }
                    assert(mid[a].id@ != task_id@);
                } else {
                    assert(fin[a] == mid[a] && fin[b] == mid[b]);
                    assert(mid[a].id@ != mid[b].id@);
                }
            }
            assert forall|k: int| 0 <= k < self.active@.len() implies active_id_ok(
                fin,
                #[trigger] self.active@[k]@,
            ) by {
                assert(active_id_ok(mid, self.active@[k]@));
                let j = choose|j: int|
                    0 <= j < mid.len() && mid[j].id@ == self.active@[k]@ && (
                    mid[j].status is Downloading || mid[j].status is Verifying);
                assert(fin[j] == mid[j]);
            }
            assert(is_new_task(
                fin[last],
                task_id@,
                task.game_id@,
                task.name@,
                task.chunks@[0].url@,
                task.dest_path@,
                total_size,
                task.sha256,
                task.md5,
                created_at,
            ));
            assert forall|i: int|
                0 <= i < pre.len() && (#[trigger] pre[i]).id@ != task_id@ implies exists|k: int|
                0 <= k < fin.len() && task_eq(#[trigger] fin[k], pre[i]) by {
                if has_task(pre, task_id@) {
                    let d = choose|d: int|
                        0 <= d < pre.len() && pre[d].id@ == task_id@ && mid == pre.remove(d);
                    assert(i != d);
                    if i < d {
                        assert(fin[i] == mid[i] && mid[i] == pre[i]);
                        assert(task_eq(fin[i], pre[i]));
                    } else {
                        assert(fin[i - 1] == mid[i - 1] && mid[i - 1] == pre[i]);
                        assert(task_eq(fin[i - 1], pre[i]));
                    }
                } else {
                    assert(mid == pre);
                    assert(fin[i] == pre[i]);
                    assert(task_eq(fin[i], pre[i]));
                }
            }
            assert forall|k: int|
                0 <= k < fin.len() implies (#[trigger] fin[k]).id@ == task_id@ || exists|i: int|
                0 <= i < pre.len() && task_eq(fin[k], #[trigger] pre[i]) by {
                if k != last {
                    assert(fin[k] == mid[k]);
                    if has_task(pre, task_id@) {
                        let d = choose|d: int|
                            0 <= d < pre.len() && pre[d].id@ == task_id@ && mid == pre.remove(d);
                        if k < d {
                            assert(mid[k] == pre[k]);
                            assert(task_eq(fin[k], pre[k]));
                        } else {
                            assert(mid[k] == pre[k + 1]);
                            assert(task_eq(fin[k], pre[k + 1]));
                        }
                    } else {
                        assert(mid == pre);
                        assert(task_eq(fin[k], pre[k]));
                    }
                }
            }
        }
        Result::Ok(task_id)
    }

    /// Start or resume a task.
    ///
    /// The caller reports the destination file's current length (0 when it
    /// does not exist); the on-disk bytes are the ground truth for the
    /// resume offset.  If the file already covers the whole size the task
    /// completes immediately; otherwise the task turns Downloading and a
    /// transfer job for the pending range is handed back.  The job's range
    /// begins exactly at the resume offset, so the bytes already on disk
    /// are never requested or rewritten.
    pub fn start_task(&mut self, task_id: &str, on_disk_len: u64) -> (r: Result<
        StartOutcome,
        DownloadError,
    >)
        requires
            old(self).wf(),
        ensures
            final(self).wf(),
            final(self).pool.capacity == old(self).pool.capacity,
            r is Err ==> {
                &&& r->Err_0 matches DownloadError::TaskNotFound(id) && id@ == task_id@
                &&& !has_task(old(self).tasks@, task_id@)
                &&& final(self).tasks@ == old(self).tasks@
                &&& final(self).active@ == old(self).active@
            },
            has_task(old(self).tasks@, task_id@) ==> r is Ok,
            !has_task(old(self).tasks@, task_id@) ==> r is Err,
            r is Ok && r->Ok_0 is AlreadyComplete ==> !id_in(final(self).active@, task_id@),
            r is Ok && r->Ok_0 is Transfer ==> final(self).active@ == old(self).active@,
            r is Ok ==> exists|i: int|
                {
                    &&& 0 <= i < old(self).tasks@.len()
                    &&& (#[trigger] old(self).tasks@[i]).id@ == task_id@
                    &&& final(self).tasks@.len() == old(self).tasks@.len()
                    &&& (forall|j: int|
                        0 <= j < old(self).tasks@.len() && j != i ==> task_eq(
                            #[trigger] final(self).tasks@[j],
                            old(self).tasks@[j],
                        ))
                    &&& start_effect(
                        old(self).tasks@[i],
                        final(self).tasks@[i],
                        r->Ok_0,
                        task_id@,
                        on_disk_len,
                    )
                },
    {
        let idx = match self.find_index(task_id) {
            Option::None => {
                return Result::Err(DownloadError::TaskNotFound(task_id.to_owned()));
            },
            Option::Some(i) => i,
        };
        let ghost pre = *self;
        let total_size = self.tasks[idx].total_size;
        if total_size > 0 && on_disk_len >= total_size {
            // The file already covers the whole range: nothing to transfer.
            self.release_if_active(task_id);
            let mut t = self.tasks[idx].snapshot();
            proof {
                crate::task::lemma_task_eq_wf(t, self.tasks@[idx as int]);
            }
            t.status = DownloadStatus::Completed;
            t.progress = 100;
            t.error = Option::None;
            proof {
                crate::task::lemma_chunk_sum_eq(t.chunks@, self.tasks@[idx as int].chunks@);
            }
            let ghost mid = *self;
            self.tasks.set(idx, t);
            proof {
                self.lemma_set_preserves_wf(mid, idx as int);
            }
            Result::Ok(StartOutcome::AlreadyComplete)
        } else {
            let mut t = self.tasks[idx].snapshot();
            proof {
                crate::task::lemma_task_eq_wf(t, self.tasks@[idx as int]);
            }
            t.status = DownloadStatus::Downloading;
            t.error = Option::None;
            let resume = on_disk_len > 0 && on_disk_len < t.total_size;
            let offset: u64 = if resume {
                on_disk_len
            } else {
                0
            };
            let mut c = t.chunks[0].snapshot();
            c.downloaded = offset;
            c.completed = false;
            t.chunks.set(0, c);
            t.downloaded_size = offset;
            t.progress = if resume {
                crate::transfer::compute_progress(offset, t.total_size)
            } else {
                0
            };
            proof {
                assert(pre.tasks@[idx as int].wf());
                assert(t.chunks@[0].start == 0);
                assert(t.chunks@[0].downloaded == offset);
            }
            let c0 = &t.chunks[0];
            let range_start = c0.start + c0.downloaded;
            let job = TransferJob {
                task_id: task_id.to_owned(),
                url: c0.url.clone(),
                dest_path: t.dest_path.clone(),
                chunk_id: c0.id,
                already: c0.downloaded,
                range_start,
                range_end: c0.end,
                use_range: range_start > 0,
                resume_offset: t.downloaded_size,
                total_size: t.total_size,
                has_checksum: t.sha256.is_some() || t.md5.is_some(),
            };
            proof {
                crate::task::lemma_single_chunk_sum(t.chunks@);
                assert(t.wf());
            }
            let ghost mid = *self;
            self.tasks.set(idx, t);
            proof {
                self.lemma_set_preserves_wf(mid, idx as int);
            }
            Result::Ok(StartOutcome::Transfer(job))
        }
    }

    /// Replacing a task with a well-formed record carrying the same id and
    /// a status that is Downloading or Verifying whenever the old one's
    /// was, keeps the manager well-formed.
    proof fn lemma_set_preserves_wf(&self, mid: DownloadManager, i: int)
        requires
            mid.wf(),
            0 <= i < mid.tasks@.len(),
            self.tasks@.len() == mid.tasks@.len(),
            forall|j: int| 0 <= j < mid.tasks@.len() && j != i ==> self.tasks@[j] == mid.tasks@[j],
            self.tasks@[i].id@ == mid.tasks@[i].id@,
            self.tasks@[i].wf(),
            !id_in(mid.active@, mid.tasks@[i].id@) || (self.tasks@[i].status is Downloading
                || self.tasks@[i].status is Verifying),
            self.active == mid.active,
            self.pool == mid.pool,
        ensures
            self.wf(),
    {
        assert forall|a: int, b: int| 0 <= a < b < self.tasks@.len() implies (
        #[trigger] self.tasks@[a].id@) != (#[trigger] self.tasks@[b].id@) by {
            assert(mid.tasks@[a].id@ != mid.tasks@[b].id@);
        }
        assert forall|j: int| 0 <= j < self.tasks@.len() implies (
        #[trigger] self.tasks@[j]).wf() by {
            if j != i {
                assert(self.tasks@[j] == mid.tasks@[j]);
            }
        }
        assert forall|k: int| 0 <= k < self.active@.len() implies active_id_ok(
            self.tasks@,
            #[trigger] self.active@[k]@,
        ) by {
            assert(active_id_ok(mid.tasks@, self.active@[k]@));
            let j = choose|j: int|
                0 <= j < mid.tasks@.len() && mid.tasks@[j].id@ == self.active@[k]@ && (
                mid.tasks@[j].status is Downloading || mid.tasks@[j].status is Verifying);
            if j == i {
                assert(0 <= k < mid.active@.len() && mid.active@[k]@ == mid.tasks@[i].id@);
                assert(id_in(mid.active@, mid.tasks@[i].id@));
                assert(self.tasks@[i].status is Downloading || self.tasks@[i].status is Verifying);
            } else {
                assert(self.tasks@[j] == mid.tasks@[j]);
            }
        }
    }

    /// Take a transfer permit for the task.  A permit is granted exactly
    /// when one is free, the task is still there mid-transfer, and it does
    /// not hold one already; otherwise the caller waits and asks again.
    pub fn begin_transfer(&mut self, task_id: &str) -> (granted: bool)
        requires
            old(self).wf(),
        ensures
            final(self).wf(),
            final(self).pool.capacity == old(self).pool.capacity,
            final(self).tasks == old(self).tasks,
            granted == (old(self).pool.in_use < old(self).pool.capacity && active_id_ok(
                old(self).tasks@,
                task_id@,
            ) && !id_in(old(self).active@, task_id@)),
            granted ==> {
                &&& final(self).active@.len() == old(self).active@.len() + 1
                &&& final(self).active@[old(self).active@.len() as int]@ == task_id@
                &&& forall|j: int|
                    0 <= j < old(self).active@.len() ==> final(self).active@[j] == old(
                        self,
                    ).active@[j]
                &&& final(self).pool.in_use == old(self).pool.in_use + 1
            },
            !granted ==> final(self).active@ == old(self).active@ && final(self).pool == old(
                self,
            ).pool,
    {
        let idx = match self.find_index(task_id) {
            Option::None => {
                proof {
                    if active_id_ok(self.tasks@, task_id@) {
                        let j = choose|j: int|
                            0 <= j < self.tasks@.len() && self.tasks@[j].id@ == task_id@ && (
                            self.tasks@[j].status is Downloading
                                || self.tasks@[j].status is Verifying);
                        assert(has_task(self.tasks@, task_id@));
                    }
                }
                return false;
            },
            Option::Some(i) => i,
        };
        let mid_transfer = self.tasks[idx].status == DownloadStatus::Downloading
            || self.tasks[idx].status == DownloadStatus::Verifying;
        if !mid_transfer {
            proof {
                if active_id_ok(self.tasks@, task_id@) {
                    let j = choose|j: int|
                        0 <= j < self.tasks@.len() && self.tasks@[j].id@ == task_id@ && (
                        self.tasks@[j].status is Downloading
                            || self.tasks@[j].status is Verifying);
                    assert(j != idx ==> self.tasks@[j].id@ != self.tasks@[idx as int].id@);
                }
            }
            return false;
        }
        match self.active_index(task_id) {
            Option::Some(_) => {
                proof {
                    assert(id_in(self.active@, task_id@));
                }
                false
            },
            Option::None => {
                let granted = self.pool.try_acquire();
                if granted {
                    self.active.push(task_id.to_owned());
                    proof {
                        let fin = self.active@;
                        let last = fin.len() - 1;
                        assert(forall|j: int| 0 <= j < last ==> fin[j] == old(self).active@[j]);
                        assert(fin[last]@ == task_id@);
                        assert(active_id_ok(self.tasks@, task_id@));
                        assert forall|a: int, b: int| 0 <= a < b < fin.len() implies (
                        #[trigger] fin[a]@) != (#[trigger] fin[b]@) by {
                            if b == last {
                                assert(old(self).active@[a]@ != task_id@);
                            } else {
                                assert(old(self).active@[a]@ != old(self).active@[b]@);
                            }
                        }
                        assert forall|k: int| 0 <= k < fin.len() implies active_id_ok(
                            self.tasks@,
                            #[trigger] fin[k]@,
                        ) by {
                            if k < last {
                                assert(active_id_ok(self.tasks@, old(self).active@[k]@));
                            }
                        }
                    }
                }
                granted
            },
        }
    }

    /// Record the end of a chunk's stream: mark it completed with the byte
    /// count the worker observed (clamped to the declared range when the
    /// total size is known) and re-derive the task's byte counter as the
    /// sum across chunks.  A missing task is a silent no-op: it was
    /// cancelled while the worker ran.
    pub fn finish_chunk(&mut self, task_id: &str, chunk_id: usize, downloaded: u64)
        requires
            old(self).wf(),
        ensures
            final(self).wf(),
            final(self).pool == old(self).pool,
            final(self).active == old(self).active,
            final(self).tasks@.len() == old(self).tasks@.len(),
            forall|i: int|
                0 <= i < old(self).tasks@.len() ==> {
                    let t = #[trigger] old(self).tasks@[i];
                    let u = final(self).tasks@[i];
                    if t.id@ == task_id@ {
                        chunk_finished_version(t, u, chunk_id, downloaded)
                    } else {
                        task_eq(u, t)
                    }
                },
    {
        let idx = match self.find_index(task_id) {
            Option::None => {
                return ;
            },
            Option::Some(i) => i,
        };
        let ghost pre = *self;
        let mut t = self.tasks[idx].snapshot();
        proof {
            assert(pre.tasks@[idx as int].wf());
            crate::task::lemma_task_eq_wf(t, self.tasks@[idx as int]);
        }
        if t.chunks.len() == 1 && t.chunks[0].id == chunk_id {
            let mut c = t.chunks[0].snapshot();
            proof {
                assert(chunk_wf(pre.tasks@[idx as int].chunks@[0], t.total_size));
            }
            let new_dl: u64 = if t.total_size > 0 {
                let cap = c.end - c.start + 1;
                if downloaded > cap {
                    cap
                } else {
                    downloaded
                }
            } else {
                downloaded
            };
            c.downloaded = new_dl;
            c.completed = true;
            t.chunks.set(0, c);
            proof {
                crate::task::lemma_single_chunk_sum(t.chunks@);
            }
            let sum = sum_chunks(&t.chunks);
            t.downloaded_size = sum;
            proof {
                assert(t.wf());
            }
            let ghost mid = *self;
            self.tasks.set(idx, t);
            proof {
                if id_in(mid.active@, mid.tasks@[idx as int].id@) {
                    let k = choose|k: int|
                        0 <= k < mid.active@.len() && mid.active@[k]@ == mid.tasks@[idx as int].id@;
                    assert(active_id_ok(mid.tasks@, mid.active@[k]@));
                    let j = choose|j: int|
                        0 <= j < mid.tasks@.len() && mid.tasks@[j].id@ == mid.active@[k]@ && (
                        mid.tasks@[j].status is Downloading || mid.tasks@[j].status is Verifying);
                    if j != idx {
                        assert(mid.tasks@[j].id@ != mid.tasks@[idx as int].id@);
                    }
                    assert(self.tasks@[idx as int].status == mid.tasks@[idx as int].status);
                }
                self.lemma_set_preserves_wf(mid, idx as int);
            }
        }
    }

    /// Mark the task Verifying ahead of its digest check.  A missing task
    /// is a silent no-op.
    pub fn begin_verification(&mut self, task_id: &str)
        requires
            old(self).wf(),
        ensures
            final(self).wf(),
            final(self).pool == old(self).pool,
            final(self).active == old(self).active,
            final(self).tasks@.len() == old(self).tasks@.len(),
            forall|i: int|
                0 <= i < old(self).tasks@.len() ==> {
                    let t = #[trigger] old(self).tasks@[i];
                    let u = final(self).tasks@[i];
                    if t.id@ == task_id@ {
                        verifying_version(t, u)
                    } else {
                        task_eq(u, t)
                    }
                },
    {
        let idx = match self.find_index(task_id) {
            Option::None => {
                return ;
            },
            Option::Some(i) => i,
        };
        let mut t = self.tasks[idx].snapshot();
        proof {
            assert(self.tasks@[idx as int].wf());
            crate::task::lemma_task_eq_wf(t, self.tasks@[idx as int]);
        }
        t.status = DownloadStatus::Verifying;
        t.error = Option::None;
        proof {
            crate::task::lemma_chunk_sum_eq(t.chunks@, self.tasks@[idx as int].chunks@);
        }
        let ghost mid = *self;
        self.tasks.set(idx, t);
        proof {
            self.lemma_set_preserves_wf(mid, idx as int);
        }
    }

    /// Settle the task after its worker finished: Completed with progress
    /// 100 on success, Error with the failure's message otherwise.  The
    /// transfer permit is given back either way.  A missing task is a
    /// silent no-op for the table, but the permit is still returned.
    pub fn finish_task(&mut self, task_id: &str, outcome: Result<(), DownloadError>)
        requires
            old(self).wf(),
        ensures
            final(self).wf(),
            final(self).pool.capacity == old(self).pool.capacity,
            !id_in(final(self).active@, task_id@),
            forall|j: int|
                0 <= j < old(self).active@.len() && (#[trigger] old(self).active@[j]@) != task_id@
                    ==> id_in(final(self).active@, old(self).active@[j]@),
            forall|k: int|
                0 <= k < final(self).active@.len() ==> id_in(
                    old(self).active@,
                    #[trigger] final(self).active@[k]@,
                ),
            final(self).tasks@.len() == old(self).tasks@.len(),
            forall|i: int|
                0 <= i < old(self).tasks@.len() ==> {
                    let t = #[trigger] old(self).tasks@[i];
                    let u = final(self).tasks@[i];
                    if t.id@ == task_id@ {
                        match outcome {
                            Result::Ok(_) => completed_version(t, u),
                            Result::Err(e) => errored_version(t, u, e),
                        }
                    } else {
                        task_eq(u, t)
                    }
                },
    {
        self.release_if_active(task_id);
        let idx = match self.find_index(task_id) {
            Option::None => {
                return ;
            },
            Option::Some(i) => i,
        };
        let mut t = self.tasks[idx].snapshot();
        proof {
            assert(self.tasks@[idx as int].wf());
            crate::task::lemma_task_eq_wf(t, self.tasks@[idx as int]);
        }
        match &outcome {
            Result::Ok(_) => {
                t.status = DownloadStatus::Completed;
                t.progress = 100;
                t.error = Option::None;
            },
            Result::Err(e) => {
                t.status = DownloadStatus::Error;
                t.error = Option::Some(e.message());
            },
        }
        proof {
            crate::task::lemma_chunk_sum_eq(t.chunks@, self.tasks@[idx as int].chunks@);
        }
        let ghost mid = *self;
        self.tasks.set(idx, t);
        proof {
            self.lemma_set_preserves_wf(mid, idx as int);
        }
    }

    /// The subset of tasks worth persisting: everything except Completed
    /// and Error, whose outcome is transient UI state, not resumable
    /// state.  Byte counts are carried over unchanged, ids stay unique.
    #[verifier::rlimit(100)]
    pub fn persistable_tasks(&self) -> (r: Vec<DownloadTask>)
        requires
            self.wf(),
        ensures
            forall|k: int| 0 <= k < r@.len() ==> !is_terminal((#[trigger] r@[k]).status),
            forall|i: int|
                0 <= i < self.tasks@.len() && !is_terminal((#[trigger] self.tasks@[i]).status)
                    ==> exists|k: int| 0 <= k < r@.len() && task_eq(#[trigger] r@[k], self.tasks@[i]),
            all_from(r@, self.tasks@),
            ids_unique(r@),
            forall|i: int, k: int|
                0 <= i < self.tasks@.len() && is_terminal((#[trigger] self.tasks@[i]).status) && 0
                    <= k < r@.len() ==> (#[trigger] r@[k]).id@ != self.tasks@[i].id@,
    {
        let n = self.tasks.len();
        let mut out: Vec<DownloadTask> = Vec::new();
        let mut i: usize = 0;
        while i < n
            invariant
                ids_unique(self.tasks@),
                n == self.tasks@.len(),
                i <= n,
                forall|k: int| 0 <= k < out@.len() ==> !is_terminal((#[trigger] out@[k]).status),
                forall|j: int|
                    0 <= j < i && !is_terminal((#[trigger] self.tasks@[j]).status) ==> exists|k: int|
                        0 <= k < out@.len() && task_eq(#[trigger] out@[k], self.tasks@[j]),
                all_from_first(out@, self.tasks@, i as int),
                ids_unique(out@),
            decreases n - i,
        {
            let terminal = self.tasks[i].status == DownloadStatus::Completed || self.tasks[i].status
                == DownloadStatus::Error;
            if !terminal {
                let ghost before = out@;
                out.push(self.tasks[i].snapshot());
                proof {
                    assert(task_eq(out@[before.len() as int], self.tasks@[i as int]));
                    assert forall|j: int|
                        0 <= j < i + 1 && !is_terminal((#[trigger] self.tasks@[j]).status)
                            implies exists|k: int|
                        0 <= k < out@.len() && task_eq(#[trigger] out@[k], self.tasks@[j]) by {
                        if j < i {
                            let k = choose|k: int|
                                0 <= k < before.len() && task_eq(before[k], self.tasks@[j]);
                            assert(out@[k] == before[k]);
                        }
                    }
                    lemma_persist_step(before, out@, self.tasks@, i as int);
                }
            } else {
                proof {
                    lemma_all_from_first_widen(out@, self.tasks@, i as int);
                }
            }
            i = i + 1;
        }
        proof {
            lemma_persist_post(out@, self.tasks@);
        }
        out
    }

    /// Re-populate the store from tasks read back from durable storage.
    ///
    /// Records saved mid-transfer are demoted to Paused with zero speed:
    /// the process that ran them is gone, and only the on-disk bytes are
    /// trustworthy.  Records that fail validation are dropped; a record
    /// whose id is already present replaces the old one.
    pub fn load_persisted(&mut self, saved: Vec<DownloadTask>)
        requires
            old(self).wf(),
            ids_unique(saved@),
        ensures
            final(self).wf(),
            final(self).pool.capacity == old(self).pool.capacity,
            forall|j: int|
                0 <= j < saved@.len() && demoted_task(#[trigger] saved@[j]).wf() ==> exists|k: int|
                    0 <= k < final(self).tasks@.len() && task_eq(
                        #[trigger] final(self).tasks@[k],
                        demoted_task(saved@[j]),
                    ),
            forall|i: int|
                0 <= i < old(self).tasks@.len() && !has_task(
                    saved@,
                    (#[trigger] old(self).tasks@[i]).id@,
                ) ==> exists|k: int|
                    0 <= k < final(self).tasks@.len() && task_eq(
                        #[trigger] final(self).tasks@[k],
                        old(self).tasks@[i],
                    ),
            forall|k: int|
                0 <= k < final(self).tasks@.len() ==> from_snapshot_or_store(
                    #[trigger] final(self).tasks@[k],
                    saved@,
                    saved@.len() as int,
                    old(self).tasks@,
                ),
    {
        let n = saved.len();
        let mut j: usize = 0;
        proof {
            assert forall|k: int| 0 <= k < self.tasks@.len() implies from_snapshot_or_store(
                #[trigger] self.tasks@[k],
                saved@,
                0,
                old(self).tasks@,
            ) by {
                assert(self.tasks@[k] == old(self).tasks@[k]);
            }
        }
        while j < n
            invariant
                old(self).wf(),
                ids_unique(saved@),
                n == saved@.len(),
                j <= n,
                self.wf(),
                self.pool.capacity == old(self).pool.capacity,
                forall|a: int|
                    0 <= a < j && demoted_task(#[trigger] saved@[a]).wf() ==> exists|k: int|
                        0 <= k < self.tasks@.len() && task_eq(
                            #[trigger] self.tasks@[k],
                            demoted_task(saved@[a]),
                        ),
                forall|i: int|
                    0 <= i < old(self).tasks@.len() && !has_task(
                        saved@,
                        (#[trigger] old(self).tasks@[i]).id@,
                    ) ==> exists|k: int|
                        0 <= k < self.tasks@.len() && task_eq(
                            #[trigger] self.tasks@[k],
                            old(self).tasks@[i],
                        ),
                forall|k: int|
                    0 <= k < self.tasks@.len() ==> from_snapshot_or_store(
                        #[trigger] self.tasks@[k],
                        saved@,
                        j as int,
                        old(self).tasks@,
                    ),
            decreases n - j,
        {
            let mut t = saved[j].snapshot();
            if t.status == DownloadStatus::Downloading || t.status == DownloadStatus::Verifying {
                t.status = DownloadStatus::Paused;
                t.speed = 0;
            }
            proof {
                assert(task_eq(t, demoted_task(saved@[j as int])));
            }
            if crate::task::is_valid_task(&t) {
                proof {
                    assert(task_eq(demoted_task(saved@[j as int]), t));
                    crate::task::lemma_task_eq_wf(demoted_task(saved@[j as int]), t);
                }
                let ghost pre = self.tasks@;
                let _ = self.cancel_task(t.id.as_str());
                let ghost mid = self.tasks@;
                let ghost tid = t.id@;
                self.tasks.push(t);
                proof {
                    let fin = self.tasks@;
                    let last = fin.len() - 1;
                    assert(ids_unique(mid));
                    assert(forall|m: int| 0 <= m < mid.len() ==> fin[m] == mid[m]);
                    assert(fin[last].id@ == tid);
                    assert forall|a: int, b: int| 0 <= a < b < fin.len() implies (
                    #[trigger] fin[a].id@) != (#[trigger] fin[b].id@) by {
                        if b == last {
                            assert(fin[a] == mid[a]);
                            if mid[a].id@ == tid {
                                assert(has_task(mid, tid));
                            }
                            assert(mid[a].id@ != tid);
                        } else {
                            assert(fin[a] == mid[a] && fin[b] == mid[b]);
                            assert(mid[a].id@ != mid[b].id@);
                        }
                    }
                    assert forall|m: int| 0 <= m < fin.len() implies (
                    #[trigger] fin[m]).wf() by {
                        if m < last {
                            assert(fin[m] == mid[m]);
                        }
                    }
                    assert forall|k: int| 0 <= k < self.active@.len() implies active_id_ok(
                        fin,
                        #[trigger] self.active@[k]@,
                    ) by {
                        assert(active_id_ok(mid, self.active@[k]@));
                        let w = choose|w: int|
                            0 <= w < mid.len() && mid[w].id@ == self.active@[k]@ && (
                            mid[w].status is Downloading || mid[w].status is Verifying);
                        assert(fin[w] == mid[w]);
                    }
                    lemma_cancel_keeps_others(pre, mid, tid);
                    assert forall|a: int|
                        0 <= a < j + 1 && demoted_task(#[trigger] saved@[a]).wf()
                            implies exists|k: int|
                        0 <= k < fin.len() && task_eq(#[trigger] fin[k], demoted_task(saved@[a])) by {
                        if a == j {
                            assert(task_eq(fin[last], demoted_task(saved@[a])));
                        } else {
                            let k0 = choose|k0: int|
                                0 <= k0 < pre.len() && task_eq(pre[k0], demoted_task(saved@[a]));
                            assert(saved@[a].id@ != saved@[j as int].id@);
                            assert(pre[k0].id@ != tid);
                            let m = choose|m: int| 0 <= m < mid.len() && mid[m] == pre[k0];
                            assert(fin[m] == mid[m]);
                            assert(task_eq(fin[m], demoted_task(saved@[a])));
                        }
                    }
                    assert forall|i: int|
                        0 <= i < old(self).tasks@.len() && !has_task(
                            saved@,
                            (#[trigger] old(self).tasks@[i]).id@,
                        ) implies exists|k: int|
                        0 <= k < fin.len() && task_eq(
                            #[trigger] fin[k],
                            old(self).tasks@[i],
                        ) by {
                        let k0 = choose|k0: int|
                            0 <= k0 < pre.len() && task_eq(pre[k0], old(self).tasks@[i]);
                        assert(old(self).tasks@[i].id@ != saved@[j as int].id@);
                        assert(pre[k0].id@ != tid);
                        let m = choose|m: int| 0 <= m < mid.len() && mid[m] == pre[k0];
                        assert(fin[m] == mid[m]);
                        assert(task_eq(fin[m], old(self).tasks@[i]));
                    }
                    assert forall|k: int|
                        0 <= k < fin.len() implies from_snapshot_or_store(
                        #[trigger] fin[k],
                        saved@,
                        j + 1,
                        old(self).tasks@,
                    ) by {
                        if k == last {
                            assert(task_eq(fin[k], demoted_task(saved@[j as int])));
                        } else {
                            assert(fin[k] == mid[k]);
                            let k0: int = if has_task(pre, tid) {
                                let d = choose|d: int|
                                    0 <= d < pre.len() && pre[d].id@ == tid && mid == pre.remove(
                                        d,
                                    );
                                if k < d {
                                    k
                                } else {
                                    k + 1
                                }
                            } else {
                                k
                            };
                            assert(mid[k] == pre[k0]);
                            assert(from_snapshot_or_store(
                                pre[k0],
                                saved@,
                                j as int,
                                old(self).tasks@,
                            ));
                            lemma_from_widen(pre[k0], saved@, j as int, old(self).tasks@);
                            assert(from_snapshot_or_store(fin[k], saved@, j + 1, old(self).tasks@));
                        }
                    }
                }
            } else {
                proof {
                    if demoted_task(saved@[j as int]).wf() {
                        crate::task::lemma_task_eq_wf(t, demoted_task(saved@[j as int]));
                    }
                    assert forall|k: int|
                        0 <= k < self.tasks@.len() implies from_snapshot_or_store(
                        #[trigger] self.tasks@[k],
                        saved@,
                        j + 1,
                        old(self).tasks@,
                    ) by {
                        assert(from_snapshot_or_store(
                            self.tasks@[k],
                            saved@,
                            j as int,
                            old(self).tasks@,
                        ));
                        lemma_from_widen(self.tasks@[k], saved@, j as int, old(self).tasks@);
                    }
                }
            }
            j = j + 1;
        }
    }

    /// Pure read: a snapshot of every task in the store.
    pub fn get_tasks(&self) -> (r: Vec<DownloadTask>)
        ensures
            r@.len() == self.tasks@.len(),
            forall|i: int| 0 <= i < r@.len() ==> task_eq(#[trigger] r@[i], self.tasks@[i]),
    {
        let n = self.tasks.len();
        let mut out: Vec<DownloadTask> = Vec::new();
        let mut i: usize = 0;
        while i < n
            invariant
                n == self.tasks@.len(),
                i <= n,
                out@.len() == i,
                forall|j: int| 0 <= j < i ==> task_eq(#[trigger] out@[j], self.tasks@[j]),
            decreases n - i,
        {
            out.push(self.tasks[i].snapshot());
            i = i + 1;
        }
        out
    }

    /// Pure read: a snapshot of the task with the given id, if present.
    pub fn get_task(&self, task_id: &str) -> (r: Option<DownloadTask>)
        ensures
            match r {
                Option::Some(t) => has_task(self.tasks@, task_id@) && t.id@ == task_id@
                    && exists|i: int|
                    0 <= i < self.tasks@.len() && task_eq(t, #[trigger] self.tasks@[i]),
                Option::None => !has_task(self.tasks@, task_id@),
            },
    {
        match self.find_index(task_id) {
            Option::Some(i) => Option::Some(self.tasks[i].snapshot()),
            Option::None => Option::None,
        }
    }
}

/// For every task in a well-formed store, the task-level byte counter
/// equals the sum of its chunks' downloaded counters.
pub proof fn lemma_downloaded_size_invariant(m: &DownloadManager, i: int)
    requires
        m.wf(),
        0 <= i < m.tasks@.len(),
    ensures
        m.tasks@[i].downloaded_size == chunks_downloaded_sum(m.tasks@[i].chunks@),
{
}

/// Resume correctness: starting a well-formed task over a partial file of
/// `k` bytes hands out a transfer whose byte range begins exactly at `k`
/// and runs to the file's last byte, with a range header requested, and
/// whose session excludes those `k` bytes from the speed figure — the
/// bytes already on disk are never requested again.
pub proof fn lemma_resume_from_disk_length(
    t: DownloadTask,
    u: DownloadTask,
    outcome: StartOutcome,
    id: Seq<char>,
    k: u64,
)
    requires
        t.wf(),
        0 < k < t.total_size,
        start_effect(t, u, outcome, id, k),
    ensures
        outcome matches StartOutcome::Transfer(job) && {
            &&& job.range_start == k
            &&& job.range_end == t.total_size - 1
            &&& job.use_range
            &&& job.already == k
            &&& job.resume_offset == k
        },
        u.downloaded_size == k,
        u.chunks@[0].downloaded == k,
{
}

/// Bounded concurrency: a well-formed manager never has more tasks holding
/// a transfer permit than the pool's capacity, and every permit holder is a
/// task that is mid-transfer or verifying.
pub proof fn lemma_bounded_concurrency(m: &DownloadManager)
    requires
        m.wf(),
    ensures
        m.active@.len() <= m.pool.capacity,
        m.pool.in_use <= m.pool.capacity,
        forall|i: int|
            0 <= i < m.active@.len() ==> active_id_ok(m.tasks@, #[trigger] m.active@[i]@),
{
}

} // verus!
