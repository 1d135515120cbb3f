//! Task and chunk records of the download engine, with their invariants.

use vstd::prelude::*;

verus! {

/// Lifecycle states of a task.
#[derive(Clone, Copy, Debug, PartialEq, Eq, Structural)]
pub enum DownloadStatus {
    Pending,
    Downloading,
    Paused,
    Verifying,
    Completed,
    Error,
}

/// Completed and Error are terminal until the caller removes the task.
pub open spec fn is_terminal(s: DownloadStatus) -> bool {
    s is Completed || s is Error
}

/// One contiguous byte range of a task's destination file.
#[derive(Debug)]
pub struct DownloadChunk {
    pub id: usize,
    pub url: String,
    pub start: u64,
    pub end: u64,
    pub downloaded: u64,
    pub completed: bool,
}

/// One requested download.
///
/// `progress` is a whole percentage in `0..=100`; `speed` is in bytes per
/// second and stays 0 while no worker is active.
#[derive(Debug)]
pub struct DownloadTask {
    pub id: String,
    pub game_id: String,
    pub name: String,
    pub dest_path: String,
    pub total_size: u64,
    pub downloaded_size: u64,
    pub progress: u64,
    pub speed: u64,
    pub status: DownloadStatus,
    pub error: Option<String>,
    pub created_at: u64,
    pub chunks: Vec<DownloadChunk>,
    pub sha256: Option<String>,
    pub md5: Option<String>,
}

/// A progress report handed to the caller's sink on every received buffer.
#[derive(Debug)]
pub struct DownloadProgress {
    pub task_id: String,
    pub downloaded_size: u64,
    pub total_size: u64,
    pub progress: u64,
    pub speed: u64,
    pub status: DownloadStatus,
    pub error: Option<String>,
}

/// Sum of the bytes recorded as downloaded across a list of chunks.
pub open spec fn chunks_downloaded_sum(cs: Seq<DownloadChunk>) -> int
    decreases cs.len(),
{
    if cs.len() == 0 {
        0
    } else {
        chunks_downloaded_sum(cs.drop_last()) + cs.last().downloaded
    }
}

/// Range and accounting invariants of one chunk, relative to the task's
/// total size.  When the total is unknown (0) the downloaded count is not
/// bounded by the declared range.
pub open spec fn chunk_wf(c: DownloadChunk, total_size: u64) -> bool {
    total_size > 0 ==> {
        &&& c.start <= c.end < total_size
        &&& c.downloaded <= c.end - c.start + 1
    }
}

impl DownloadTask {
    /// Well-formedness of a task record.
    ///
    /// The engine's central invariant: the task-level byte counter always
    /// equals the sum of its chunks' counters.  Current policy keeps exactly
    /// one chunk spanning the whole file.
    pub open spec fn wf(&self) -> bool {
        &&& self.chunks@.len() == 1
        &&& self.chunks@[0].id == 0
        &&& self.chunks@[0].start == 0
        &&& self.chunks@[0].end == if self.total_size > 0 {
            self.total_size - 1
        } else {
            0
        }
        &&& self.downloaded_size == chunks_downloaded_sum(self.chunks@)
        &&& forall|i: int|
            0 <= i < self.chunks@.len() ==> chunk_wf(#[trigger] self.chunks@[i], self.total_size)
        &&& self.progress <= 100
        &&& self.error is Some ==> self.status is Error
    }
}

/// Field-by-field equality of chunk records, over views.
pub open spec fn chunk_eq(a: DownloadChunk, b: DownloadChunk) -> bool {
    &&& a.id == b.id
    &&& a.url@ == b.url@
    &&& a.start == b.start
    &&& a.end == b.end
    &&& a.downloaded == b.downloaded
    &&& a.completed == b.completed
}

/// Equality of optional strings, over views.
pub open spec fn opt_str_eq(a: Option<String>, b: Option<String>) -> bool {
    match (a, b) {
        (Option::None, Option::None) => true,
        (Option::Some(x), Option::Some(y)) => x@ == y@,
        _ => false,
    }
}

/// The fields of a task that no lifecycle transition ever touches.
pub open spec fn same_identity(a: DownloadTask, b: DownloadTask) -> bool {
    &&& a.id@ == b.id@
    &&& a.game_id@ == b.game_id@
    &&& a.name@ == b.name@
    &&& a.dest_path@ == b.dest_path@
    &&& a.total_size == b.total_size
    &&& a.created_at == b.created_at
    &&& opt_str_eq(a.sha256, b.sha256)
    &&& opt_str_eq(a.md5, b.md5)
}

/// Element-wise equality of two tasks' chunk lists.
pub open spec fn same_chunks(a: DownloadTask, b: DownloadTask) -> bool {
    &&& a.chunks@.len() == b.chunks@.len()
    &&& forall|i: int| 0 <= i < a.chunks@.len() ==> chunk_eq(#[trigger] a.chunks@[i], b.chunks@[i])
}

/// Field-by-field equality of task records, over views.
pub open spec fn task_eq(a: DownloadTask, b: DownloadTask) -> bool {
    &&& same_identity(a, b)
    &&& same_chunks(a, b)
    &&& a.downloaded_size == b.downloaded_size
    &&& a.progress == b.progress
    &&& a.speed == b.speed
    &&& a.status == b.status
    &&& opt_str_eq(a.error, b.error)
}

/// `b` is `a` after a pause: only the status and the speed change.
pub open spec fn paused_version(a: DownloadTask, b: DownloadTask) -> bool {
    &&& same_identity(a, b)
    &&& same_chunks(a, b)
    &&& a.downloaded_size == b.downloaded_size
    &&& a.progress == b.progress
    &&& b.speed == 0
    &&& b.status is Paused
    &&& opt_str_eq(a.error, b.error)
}

fn clone_opt_string(o: &Option<String>) -> (r: Option<String>)
    ensures
        opt_str_eq(r, *o),
{
    match o {
        Option::None => Option::None,
        Option::Some(s) => Option::Some(s.clone()),
    }
}

impl DownloadChunk {
    /// An exact copy; unlike a derived clone, its contract pins every field.
    pub fn snapshot(&self) -> (r: DownloadChunk)
        ensures
            chunk_eq(r, *self),
    {
        DownloadChunk {
            id: self.id,
            url: self.url.clone(),
            start: self.start,
            end: self.end,
            downloaded: self.downloaded,
            completed: self.completed,
        }
    }
}

impl DownloadTask {
    /// An exact copy; unlike a derived clone, its contract pins every field.
    pub fn snapshot(&self) -> (r: DownloadTask)
        ensures
            task_eq(r, *self),
    {
        let mut chunks: Vec<DownloadChunk> = Vec::new();
        let n = self.chunks.len();
        let mut i: usize = 0;
        while i < n
            invariant
                n == self.chunks@.len(),
                i <= n,
                chunks@.len() == i,
                forall|j: int| 0 <= j < i ==> chunk_eq(#[trigger] chunks@[j], self.chunks@[j]),
            decreases n - i,
        {
            chunks.push(self.chunks[i].snapshot());
            i = i + 1;
        }
        DownloadTask {
            id: self.id.clone(),
            game_id: self.game_id.clone(),
            name: self.name.clone(),
            dest_path: self.dest_path.clone(),
            total_size: self.total_size,
            downloaded_size: self.downloaded_size,
            progress: self.progress,
            speed: self.speed,
            status: self.status,
            error: clone_opt_string(&self.error),
            created_at: self.created_at,
            chunks,
            sha256: clone_opt_string(&self.sha256),
            md5: clone_opt_string(&self.md5),
        }
    }
}

/// Decide well-formedness of a task record, e.g. one read back from
/// durable storage, where nothing is known about it yet.
pub fn is_valid_task(t: &DownloadTask) -> (r: bool)
    ensures
        r == t.wf(),
{
    if t.chunks.len() != 1 {
        return false;
    }
    let c = &t.chunks[0];
    proof {
        lemma_single_chunk_sum(t.chunks@);
        assert forall|i: int| 0 <= i < t.chunks@.len() implies #[trigger] t.chunks@[i]
            == t.chunks@[0] by {}
    }
    let end_expected: u64 = if t.total_size > 0 {
        t.total_size - 1
    } else {
        0
    };
    let range_ok: bool = if t.total_size > 0 {
        c.start <= c.end && c.end < t.total_size && c.downloaded <= c.end - c.start + 1
    } else {
        true
    };
    let err_ok: bool = match &t.error {
        Option::Some(_) => t.status == DownloadStatus::Error,
        Option::None => true,
    };
    c.id == 0 && c.start == 0 && c.end == end_expected && range_ok && t.downloaded_size
        == c.downloaded && t.progress <= 100 && err_ok
}

/// A snapshot of a well-formed task is well-formed.
pub proof fn lemma_task_eq_wf(a: DownloadTask, b: DownloadTask)
    requires
        task_eq(a, b),
        b.wf(),
    ensures
        a.wf(),
{
    lemma_chunk_sum_eq(a.chunks@, b.chunks@);
}

/// Chunk lists equal element-wise have the same downloaded sum.
pub proof fn lemma_chunk_sum_eq(a: Seq<DownloadChunk>, b: Seq<DownloadChunk>)
    requires
        a.len() == b.len(),
        forall|i: int| 0 <= i < a.len() ==> chunk_eq(#[trigger] a[i], b[i]),
    ensures
        chunks_downloaded_sum(a) == chunks_downloaded_sum(b),
    decreases a.len(),
{
    if a.len() > 0 {
        lemma_chunk_sum_eq(a.drop_last(), b.drop_last());
    }
}

/// A prefix never sums to more than the whole list.
pub proof fn lemma_chunk_sum_prefix(cs: Seq<DownloadChunk>, n: int)
    requires
        0 <= n <= cs.len(),
    ensures
        chunks_downloaded_sum(cs.subrange(0, n)) <= chunks_downloaded_sum(cs),
    decreases cs.len(),
{
    if n == cs.len() {
        assert(cs.subrange(0, n) =~= cs);
    } else {
        lemma_chunk_sum_prefix(cs.drop_last(), n);
        assert(cs.drop_last().subrange(0, n) =~= cs.subrange(0, n));
        lemma_chunk_sum_nonneg(cs);
    }
}

/// Every chunk contributes a non-negative count.
pub proof fn lemma_chunk_sum_nonneg(cs: Seq<DownloadChunk>)
    ensures
        chunks_downloaded_sum(cs) >= 0,
    decreases cs.len(),
{
    if cs.len() > 0 {
        lemma_chunk_sum_nonneg(cs.drop_last());
    }
}

/// Sum the recorded byte counts of a chunk list.
pub fn sum_chunks(chunks: &Vec<DownloadChunk>) -> (s: u64)
    requires
        chunks_downloaded_sum(chunks@) <= u64::MAX,
    ensures
        s == chunks_downloaded_sum(chunks@),
{
    let n = chunks.len();
    let mut s: u64 = 0;
    let mut i: usize = 0;
    while i < n
        invariant
            n == chunks@.len(),
            i <= n,
            chunks_downloaded_sum(chunks@) <= u64::MAX,
            s == chunks_downloaded_sum(chunks@.subrange(0, i as int)),
        decreases n - i,
    {
        proof {
            let pre = chunks@.subrange(0, i as int);
            let post = chunks@.subrange(0, i + 1);
            assert(post.drop_last() =~= pre);
            assert(chunks_downloaded_sum(post) == chunks_downloaded_sum(pre)
                + chunks@[i as int].downloaded);
            lemma_chunk_sum_prefix(chunks@, i + 1);
            lemma_chunk_sum_nonneg(pre);
        }
        s = s + chunks[i].downloaded;
        i = i + 1;
    }
    proof {
        assert(chunks@.subrange(0, n as int) =~= chunks@);
    }
    s
}

/// The sum over a one-chunk list is that chunk's count.
pub proof fn lemma_single_chunk_sum(cs: Seq<DownloadChunk>)
    requires
        cs.len() == 1,
    ensures
        chunks_downloaded_sum(cs) == cs[0].downloaded,
{
    assert(cs.drop_last().len() == 0);
    assert(chunks_downloaded_sum(cs.drop_last()) == 0);
}

} // verus!
