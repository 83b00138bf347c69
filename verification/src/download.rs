//! Multi-chunk downloads: how a file is split into ranges, how task and
//! batch states are named, persisted and restored, and how a batch's state
//! follows from its children.

use vstd::prelude::*;
use crate::text::{chars_eq_str, chars_of, extend_str, string_of};

verus! {

/// Largest number of chunks a file is split into.
pub const MAX_CONCURRENT_CHUNKS: usize = 8;

/// Chunk size below which a file is split no further (1 MiB).
pub const MAX_CHUNK_SIZE: u64 = 1048576;

/// Status of a download task or batch.
#[derive(Debug, Clone)]
pub enum TaskStatus {
    Queued,
    Downloading,
    Paused,
    Completed,
    Failed(String),
}

/// What a status means, with the failure message as text.
pub enum StatusView {
    Queued,
    Downloading,
    Paused,
    Completed,
    Failed(Seq<char>),
}

impl View for TaskStatus {
    type V = StatusView;

    open spec fn view(&self) -> StatusView {
        match self {
            TaskStatus::Queued => StatusView::Queued,
            TaskStatus::Downloading => StatusView::Downloading,
            TaskStatus::Paused => StatusView::Paused,
            TaskStatus::Completed => StatusView::Completed,
            TaskStatus::Failed(m) => StatusView::Failed(m@),
        }
    }
}

impl PartialEq for TaskStatus {
    fn eq(&self, other: &Self) -> (r: bool) {
        match self {
            TaskStatus::Queued => other.is_queued(),
            TaskStatus::Downloading => other.is_downloading(),
            TaskStatus::Paused => other.is_paused(),
            TaskStatus::Completed => other.is_completed(),
            TaskStatus::Failed(a) => match other {
                TaskStatus::Failed(b) => a.eq(b),
                _ => false,
            },
        }
    }
}

impl vstd::std_specs::cmp::PartialEqSpecImpl for TaskStatus {
    open spec fn obeys_eq_spec() -> bool {
        true
    }

    open spec fn eq_spec(&self, other: &Self) -> bool {
        self.view() == other.view()
    }
}

impl TaskStatus {
    fn is_queued(&self) -> (b: bool)
        ensures
            b == (self@ == StatusView::Queued),
    {
        match self {
            TaskStatus::Queued => true,
            _ => false,
        }
    }

    fn is_downloading(&self) -> (b: bool)
        ensures
            b == (self@ == StatusView::Downloading),
    {
        match self {
            TaskStatus::Downloading => true,
            _ => false,
        }
    }

    fn is_paused(&self) -> (b: bool)
        ensures
            b == (self@ == StatusView::Paused),
    {
        match self {
            TaskStatus::Paused => true,
            _ => false,
        }
    }

    fn is_completed(&self) -> (b: bool)
        ensures
            b == (self@ == StatusView::Completed),
    {
        match self {
            TaskStatus::Completed => true,
            _ => false,
        }
    }
}

/// State for a single download chunk: the inclusive byte range
/// `start..=end` and how many of its bytes are on disk.
#[derive(Debug, Clone, Copy, PartialEq, Eq, Structural)]
pub struct ChunkState {
    pub start: u64,
    pub end: u64,
    pub downloaded: u64,
}

// ── Chunk planning ──────────────────────────────────────────────────────

/// Number of chunks for a file of `total` bytes: one per started MiB, at
/// most eight, and one for files of at most 1 MiB.
pub open spec fn chunk_count(total: nat) -> nat {
    if total <= 1048576 {
        1
    } else {
        let needed = (total + 1048575) / 1048576;
        if needed < 8 {
            needed
        } else {
            8
        }
    }
}

/// First byte of chunk `i` of a `total`-byte file: the bytes are shared out
/// evenly, the first `total % n` chunks taking one byte more.
pub open spec fn chunk_lo(total: nat, i: nat) -> nat {
    let n = chunk_count(total);
    let q = total / n;
    let r = total % n;
    i * q + if i < r {
        i
    } else {
        r
    }
}

/// Chunk `i` of the plan for `total` bytes: from `chunk_lo(total, i)` to
/// just before `chunk_lo(total, i + 1)`, nothing downloaded yet.
pub open spec fn is_planned_chunk(c: ChunkState, total: nat, i: int) -> bool {
    &&& c.start == chunk_lo(total, i as nat)
    &&& c.end + 1 == chunk_lo(total, (i + 1) as nat)
    &&& c.downloaded == 0
}

/// The chunk list is the plan for `total` bytes.
pub open spec fn is_chunk_plan(chunks: Seq<ChunkState>, total: nat) -> bool {
    if total == 0 {
        chunks == seq![ChunkState { start: 0, end: 0, downloaded: 0 }]
    } else {
        &&& chunks.len() == chunk_count(total)
        &&& forall|i: int| 0 <= i < chunks.len() ==> #[trigger] is_planned_chunk(chunks[i], total, i)
    }
}

proof fn lemma_chunk_count_bounds(total: nat)
    requires
        total > 0,
    ensures
        1 <= chunk_count(total) <= 8,
        chunk_count(total) <= total,
{
}

proof fn lemma_chunk_lo_step(total: nat, i: nat)
    requires
        total > 0,
        i < chunk_count(total),
    ensures
        chunk_lo(total, i + 1) == chunk_lo(total, i) + total / chunk_count(total) + if i < total
            % chunk_count(total) {
            1nat
        } else {
            0nat
        },
        chunk_lo(total, i + 1) <= total,
        chunk_lo(total, i) < chunk_lo(total, i + 1),
{
    let n = chunk_count(total);
    let q = total / n;
    let r = total % n;
    lemma_chunk_count_bounds(total);
    assert((i + 1) * q == i * q + q) by (nonlinear_arith);
    assert(total == n * q + r) by (nonlinear_arith)
        requires
            n > 0,
            q == total / n,
            r == total % n,
    ;
    assert((i + 1) * q <= n * q) by (nonlinear_arith)
        requires
            i + 1 <= n,
    ;
    assert(q >= 1) by (nonlinear_arith)
        requires
            n <= total,
            n > 0,
            q == total / n,
    ;
}

/// The chunk plan covers the file: it starts at byte 0, each chunk starts
/// right after the previous one ends, no chunk is empty, and the last ends
/// at the final byte.
pub proof fn lemma_chunk_plan_covers(chunks: Seq<ChunkState>, total: nat)
    requires
        is_chunk_plan(chunks, total),
        total > 0,
    ensures
        1 <= chunks.len() <= 8,
        chunks[0].start == 0,
        forall|i: int| 0 <= i < chunks.len() ==> #[trigger] chunks[i].start <= chunks[i].end,
        forall|i: int|
            0 <= i < chunks.len() - 1 ==> #[trigger] chunks[i + 1].start == chunks[i].end + 1,
        chunks[chunks.len() - 1].end + 1 == total,
{
    let n = chunk_count(total);
    lemma_chunk_count_bounds(total);
    assert(is_planned_chunk(chunks[0], total, 0));
    assert forall|i: int| 0 <= i < chunks.len() implies #[trigger] chunks[i].start
        <= chunks[i].end by {
        assert(is_planned_chunk(chunks[i], total, i));
        lemma_chunk_lo_step(total, i as nat);
    }
    assert forall|i: int| 0 <= i < chunks.len() - 1 implies #[trigger] chunks[i + 1].start
        == chunks[i].end + 1 by {
        assert(is_planned_chunk(chunks[i], total, i));
        assert(is_planned_chunk(chunks[i + 1], total, i + 1));
    }
    let q = total / n;
    let r = total % n;
    assert(n * q + r == total) by (nonlinear_arith)
        requires
            n > 0,
            q == total / n,
            r == total % n,
    ;
    assert(chunk_lo(total, n) == total);
    assert(is_planned_chunk(chunks[n - 1], total, n - 1));
}

/// Files of at most 8 MiB are split into chunks of at most 1 MiB.
pub proof fn lemma_small_files_use_small_chunks(chunks: Seq<ChunkState>, total: nat)
    requires
        is_chunk_plan(chunks, total),
        0 < total <= 8388608,
    ensures
        forall|i: int|
            0 <= i < chunks.len() ==> #[trigger] chunks[i].end - chunks[i].start + 1 <= 1048576,
{
    let n = chunk_count(total);
    let q = total / n;
    let r = total % n;
    lemma_chunk_count_bounds(total);
    assert(n * 1048576 >= total) by (nonlinear_arith)
        requires
            total <= 8388608,
            total > 0,
            n == (if total <= 1048576 {
                1nat
            } else {
                let needed = (total + 1048575) / 1048576;
                if needed < 8 {
                    needed
                } else {
                    8nat
                }
            }),
    ;
    assert(total == n * q + r) by (nonlinear_arith)
        requires
            n > 0,
            q == total / n,
            r == total % n,
    ;
    assert(q + (if r > 0 {
        1nat
    } else {
        0nat
    }) <= 1048576) by (nonlinear_arith)
        requires
            n * 1048576 >= total,
            total == n * q + r,
            0 <= r < n,
            n > 0,
    ;
    assert forall|i: int| 0 <= i < chunks.len() implies #[trigger] chunks[i].end
        - chunks[i].start + 1 <= 1048576 by {
        assert(is_planned_chunk(chunks[i], total, i));
        lemma_chunk_lo_step(total, i as nat);
    }
}

/// Divide `total_bytes` into chunks (see `chunk_count` and `chunk_lo`): up
/// to eight, evenly sized, covering the file exactly; an empty file gets
/// the single chunk `0..=0`.
pub fn calculate_chunks(total_bytes: u64) -> (chunks: Vec<ChunkState>)
    ensures
        is_chunk_plan(chunks@, total_bytes as nat),
{
    if total_bytes == 0 {
        let mut v: Vec<ChunkState> = Vec::new();
        v.push(ChunkState { start: 0, end: 0, downloaded: 0 });
        proof {
            assert(v@ =~= seq![ChunkState { start: 0, end: 0, downloaded: 0 }]);
        }
        return v;
    }
    let num_chunks: u64 = if total_bytes <= MAX_CHUNK_SIZE {
        1
    } else {
        let needed = total_bytes / MAX_CHUNK_SIZE + if total_bytes % MAX_CHUNK_SIZE > 0 {
            1
        } else {
            0
        };
        proof {
            let t = total_bytes as nat;
            assert(needed == (t + 1048575) / 1048576) by (nonlinear_arith)
                requires
                    needed == t / 1048576 + if t % 1048576 > 0 {
                        1nat
                    } else {
                        0nat
                    },
            ;
        }
        if needed < 8 {
            needed
        } else {
            8
        }
    };
    proof {
        lemma_chunk_count_bounds(total_bytes as nat);
    }
    let chunk_size = total_bytes / num_chunks;
    let remainder = total_bytes % num_chunks;
    let mut chunks: Vec<ChunkState> = Vec::new();
    let mut offset: u64 = 0;
    let mut i: u64 = 0;
    while i < num_chunks
        invariant
            total_bytes > 0,
            num_chunks == chunk_count(total_bytes as nat),
            chunk_size == total_bytes / num_chunks,
            remainder == total_bytes % num_chunks,
            i <= num_chunks,
            chunks@.len() == i,
            offset == chunk_lo(total_bytes as nat, i as nat),
            forall|k: int| 0 <= k < i ==> #[trigger] is_planned_chunk(chunks@[k], total_bytes as nat, k),
        decreases num_chunks - i,
    {
        proof {
            lemma_chunk_lo_step(total_bytes as nat, i as nat);
        }
        let size = if i < remainder {
            chunk_size + 1
        } else {
            chunk_size
        };
        let end = offset + size - 1;
        assert(end + 1 == chunk_lo(total_bytes as nat, (i + 1) as nat));
        let ghost old_chunks = chunks;
        chunks.push(ChunkState { start: offset, end, downloaded: 0 });
        assert(chunks@[i as int].start == chunk_lo(total_bytes as nat, i as nat));
        offset = end + 1;
        i = i + 1;
        assert forall|k: int| 0 <= k < i implies #[trigger] is_planned_chunk(chunks@[k], total_bytes as nat, k) by {
            if k < i - 1 {
                assert(chunks@[k] == old_chunks@[k]);
            }
        }
    }
    assert(chunks@.len() == chunk_count(total_bytes as nat));
    chunks
}


// ── Status names ────────────────────────────────────────────────────────

/// The name a status is persisted and reported under.
pub open spec fn status_name(s: StatusView) -> Seq<char> {
    match s {
        StatusView::Queued => "queued"@,
        StatusView::Downloading => "downloading"@,
        StatusView::Paused => "paused"@,
        StatusView::Completed => "completed"@,
        StatusView::Failed(_) => "failed"@,
    }
}

/// The status a persisted name stands for; a failure read back carries no
/// message.
pub open spec fn status_named(name: Seq<char>) -> Option<StatusView> {
    if name == "queued"@ {
        Some(StatusView::Queued)
    } else if name == "downloading"@ {
        Some(StatusView::Downloading)
    } else if name == "paused"@ {
        Some(StatusView::Paused)
    } else if name == "completed"@ {
        Some(StatusView::Completed)
    } else if name == "failed"@ {
        Some(StatusView::Failed(Seq::empty()))
    } else {
        None
    }
}

/// The name a status is persisted and reported under.
pub fn task_status_string(status: &TaskStatus) -> (s: String)
    ensures
        s@ == status_name(status@),
{
    match status {
        TaskStatus::Queued => "queued".to_owned(),
        TaskStatus::Downloading => "downloading".to_owned(),
        TaskStatus::Paused => "paused".to_owned(),
        TaskStatus::Completed => "completed".to_owned(),
        TaskStatus::Failed(_) => "failed".to_owned(),
    }
}

/// The status named by a persisted string, if it names one.
pub fn task_status_from_str(status: &str) -> (r: Option<TaskStatus>)
    ensures
        match r {
            Some(t) => status_named(status@) == Some(t@),
            None => status_named(status@) is None,
        },
{
    let v = chars_of(status);
    if chars_eq_str(v.as_slice(), "queued") {
        Some(TaskStatus::Queued)
    } else if chars_eq_str(v.as_slice(), "downloading") {
        Some(TaskStatus::Downloading)
    } else if chars_eq_str(v.as_slice(), "paused") {
        Some(TaskStatus::Paused)
    } else if chars_eq_str(v.as_slice(), "completed") {
        Some(TaskStatus::Completed)
    } else if chars_eq_str(v.as_slice(), "failed") {
        let empty = String::new();
        proof {
            assert(empty@ =~= Seq::<char>::empty());
        }
        Some(TaskStatus::Failed(empty))
    } else {
        None
    }
}

/// Reading back the name of a status gives the status again, except that
/// a failure loses its message.
pub proof fn lemma_status_name_round_trip(s: StatusView)
    ensures
        status_named(status_name(s)) == Some(
            match s {
                StatusView::Failed(_) => StatusView::Failed(Seq::empty()),
                other => other,
            },
        ),
{
    reveal_strlit("queued");
    reveal_strlit("downloading");
    reveal_strlit("paused");
    reveal_strlit("completed");
    reveal_strlit("failed");
    assert("downloading"@.len() != "queued"@.len());
    assert("paused"@[0] != "queued"@[0]);
    assert("completed"@.len() != "queued"@.len());
    assert("completed"@.len() != "downloading"@.len());
    assert("completed"@.len() != "paused"@.len());
    assert("failed"@[0] != "queued"@[0]);
    assert("failed"@.len() != "downloading"@.len());
    assert("failed"@[0] != "paused"@[0]);
    assert("failed"@.len() != "completed"@.len());
    assert("paused"@.len() != "downloading"@.len());
}

/// A name that stands for a status is that status's name.
pub proof fn lemma_status_named_is_name(name: Seq<char>)
    requires
        status_named(name) is Some,
    ensures
        status_name(status_named(name).unwrap()) == name,
{
}

// ── Batch status ────────────────────────────────────────────────────────

/// The state of a batch given the states of its files: paused when empty;
/// completed when every file is; downloading while any file is queued or
/// downloading; failed when some file failed and none is active; otherwise
/// paused.
pub open spec fn batch_status(statuses: Seq<StatusView>) -> StatusView {
    if statuses.len() == 0 {
        StatusView::Paused
    } else if forall|i: int| 0 <= i < statuses.len() ==> #[trigger] statuses[i] == StatusView::Completed {
        StatusView::Completed
    } else if exists|i: int|
        0 <= i < statuses.len() && (#[trigger] statuses[i] == StatusView::Downloading
            || statuses[i] == StatusView::Queued) {
        StatusView::Downloading
    } else if exists|i: int| 0 <= i < statuses.len() && #[trigger] statuses[i] is Failed {
        StatusView::Failed("Some files failed to download"@)
    } else {
        StatusView::Paused
    }
}

/// The views of a list of statuses.
pub open spec fn status_views(s: Seq<TaskStatus>) -> Seq<StatusView> {
    s.map_values(|t: TaskStatus| t@)
}

/// The state of a batch given the states of its files (see `batch_status`).
pub fn batch_status_from_statuses(statuses: &[TaskStatus]) -> (r: TaskStatus)
    ensures
        r@ == batch_status(status_views(statuses@)),
{
    let ghost views = status_views(statuses@);
    if statuses.len() == 0 {
        return TaskStatus::Paused;
    }
    let mut all_completed = true;
    let mut any_downloading = false;
    let mut any_failed = false;
    let mut i: usize = 0;
    while i < statuses.len()
        invariant
            i <= statuses.len(),
            views == status_views(statuses@),
            views.len() == statuses.len(),
            all_completed == forall|k: int| 0 <= k < i ==> #[trigger] views[k] == StatusView::Completed,
            any_downloading == exists|k: int|
                0 <= k < i && (#[trigger] views[k] == StatusView::Downloading || views[k]
                    == StatusView::Queued),
            any_failed == exists|k: int| 0 <= k < i && #[trigger] views[k] is Failed,
        decreases statuses.len() - i,
    {
        proof {
            assert(views[i as int] == statuses@[i as int]@);
        }
        match &statuses[i] {
            TaskStatus::Completed => {},
            TaskStatus::Downloading | TaskStatus::Queued => {
                all_completed = false;
                any_downloading = true;
            },
            TaskStatus::Paused => {
                all_completed = false;
            },
            TaskStatus::Failed(_) => {
                all_completed = false;
                any_failed = true;
            },
        }
        i = i + 1;
    }
    if all_completed {
        TaskStatus::Completed
    } else if any_downloading {
        TaskStatus::Downloading
    } else if any_failed {
        TaskStatus::Failed("Some files failed to download".to_owned())
    } else {
        TaskStatus::Paused
    }
}

/// A batch reports completion exactly when it has files and all of them
/// completed; while any file is still queued or downloading the batch
/// reports downloading.
pub proof fn lemma_batch_completes_only_when_all_children_do(statuses: Seq<StatusView>)
    ensures
        (batch_status(statuses) == StatusView::Completed) <==> (statuses.len() > 0 && forall|
            i: int,
        |
            0 <= i < statuses.len() ==> #[trigger] statuses[i] == StatusView::Completed),
        (exists|i: int|
            0 <= i < statuses.len() && (#[trigger] statuses[i] == StatusView::Downloading
                || statuses[i] == StatusView::Queued)) ==> batch_status(statuses)
            == StatusView::Downloading,
{
    if exists|i: int|
        0 <= i < statuses.len() && (#[trigger] statuses[i] == StatusView::Downloading
            || statuses[i] == StatusView::Queued) {
        let i = choose|i: int|
            0 <= i < statuses.len() && (#[trigger] statuses[i] == StatusView::Downloading
                || statuses[i] == StatusView::Queued);
        assert(statuses[i] != StatusView::Completed);
    }
}


// ── Tasks, batches and their persisted forms ────────────────────────────

/// Parameters for creating a new download task.
#[derive(Debug, Clone)]
pub struct DownloadParams {
    pub file_name: String,
    pub home_account_id: String,
    pub cloud_env: String,
    pub drive_id: String,
    pub item_id: String,
    pub local_path: String,
    pub total_bytes: u64,
    pub download_url: String,
    pub bearer_token: Option<String>,
}

/// A persisted download task snapshot.
#[derive(Debug, Clone)]
pub struct PersistedTask {
    pub id: String,
    pub file_name: String,
    pub home_account_id: String,
    pub drive_id: String,
    pub item_id: String,
    pub local_path: String,
    pub total_bytes: u64,
    pub status: String,
    pub cloud_env: String,
    pub url_obtained_at: String,
    pub chunks: Vec<PersistedChunk>,
    pub batch_id: String,
    pub etag: Option<String>,
}

/// A persisted chunk of a task.
#[derive(Debug, Clone, Copy, PartialEq, Eq, Structural)]
pub struct PersistedChunk {
    pub start: u64,
    pub end: u64,
    pub downloaded: u64,
}

/// A persisted batch task metadata file.
#[derive(Debug, Clone)]
pub struct PersistedBatch {
    pub id: String,
    pub name: String,
    pub task_ids: Vec<String>,
    pub total_bytes: u64,
    pub home_account_id: String,
    pub local_path: String,
    pub cloud_env: String,
    pub drive_id: String,
    pub url_obtained_at: String,
}

/// Batch task result returned to the frontend.
#[derive(Debug, Clone)]
pub struct BatchInfo {
    pub batch_id: String,
    pub batch_name: String,
}

/// Progress of a batch as handed to each child download worker: the bytes
/// downloaded so far across the batch.
#[derive(Debug, Clone)]
pub struct BatchProgress {
    pub id: String,
    pub name: String,
    pub total_bytes: u64,
    pub downloaded_bytes: u64,
}

/// A single download task: what is fetched, where to, and how far it got.
/// `url_obtained_at` is a UTC Unix timestamp in seconds.
#[derive(Debug, Clone)]
pub struct DownloadTask {
    pub id: String,
    pub file_name: String,
    pub home_account_id: String,
    pub drive_id: String,
    pub item_id: String,
    pub local_path: String,
    pub total_bytes: u64,
    pub downloaded_bytes: u64,
    pub status: TaskStatus,
    pub cloud_env: String,
    pub download_url: String,
    pub bearer_token: Option<String>,
    pub url_obtained_at: i64,
    pub chunks: Vec<ChunkState>,
    pub batch_id: String,
    pub etag: Option<String>,
    pub persist_path: String,
}

/// `n` capped at `u64::MAX`.
pub open spec fn saturating(n: int) -> u64 {
    if n > u64::MAX {
        u64::MAX
    } else {
        n as u64
    }
}

/// Sum of the downloaded counters of chunks.
pub open spec fn downloaded_sum(chunks: Seq<ChunkState>) -> nat
    decreases chunks.len(),
{
    if chunks.len() == 0 {
        0
    } else {
        downloaded_sum(chunks.drop_last()) + chunks.last().downloaded as nat
    }
}

/// Sum of the downloaded counters of persisted chunks.
pub open spec fn persisted_downloaded_sum(chunks: Seq<PersistedChunk>) -> nat
    decreases chunks.len(),
{
    if chunks.len() == 0 {
        0
    } else {
        persisted_downloaded_sum(chunks.drop_last()) + chunks.last().downloaded as nat
    }
}

/// Bytes downloaded across chunks.
pub fn chunk_downloaded_sum(chunks: &[ChunkState]) -> (total: u64)
    requires
        downloaded_sum(chunks@) <= u64::MAX,
    ensures
        total == downloaded_sum(chunks@),
{
    let mut total: u64 = 0;
    let mut i: usize = 0;
    while i < chunks.len()
        invariant
            i <= chunks.len(),
            downloaded_sum(chunks@) <= u64::MAX,
            total == downloaded_sum(chunks@.take(i as int)),
        decreases chunks.len() - i,
    {
        proof {
            assert(chunks@.take(i + 1).drop_last() =~= chunks@.take(i as int));
            lemma_downloaded_sum_prefix(chunks@, i + 1);
        }
        total = total + chunks[i].downloaded;
        i = i + 1;
    }
    proof {
        assert(chunks@.take(chunks@.len() as int) =~= chunks@);
    }
    total
}

proof fn lemma_downloaded_sum_prefix(chunks: Seq<ChunkState>, k: int)
    requires
        0 <= k <= chunks.len(),
    ensures
        downloaded_sum(chunks.take(k)) <= downloaded_sum(chunks),
    decreases chunks.len(),
{
    if k < chunks.len() {
        assert(chunks.drop_last().take(k) =~= chunks.take(k));
        lemma_downloaded_sum_prefix(chunks.drop_last(), k);
    } else {
        assert(chunks.take(k) =~= chunks);
    }
}

/// The chunk state of a persisted chunk, and back.
pub open spec fn chunk_of(p: PersistedChunk) -> ChunkState {
    ChunkState { start: p.start, end: p.end, downloaded: p.downloaded }
}

pub open spec fn persisted_of(c: ChunkState) -> PersistedChunk {
    PersistedChunk { start: c.start, end: c.end, downloaded: c.downloaded }
}

/// The status a task restored from disk starts in: finished tasks keep
/// their state, and everything else (an interrupted download included)
/// comes back paused.
pub open spec fn restored_status(name: Seq<char>) -> StatusView {
    if name == "completed"@ {
        StatusView::Completed
    } else if name == "failed"@ {
        StatusView::Failed(Seq::empty())
    } else {
        StatusView::Paused
    }
}

/// Name for the text of `Path::new(dir).join(file)` (read as lossy UTF-8):
/// `file` adjoined to `dir` with the separator of the platform the library
/// is built for, or `file` alone where it is absolute.
pub uninterp spec fn joined_path(dir: Seq<char>, file: Seq<char>) -> Seq<char>;

/// Joins a file name onto a directory with `std::path::Path::join`, as
/// lossy UTF-8 text. Path syntax is the platform's, so the result is named
/// (see `joined_path`), not restated.
#[verifier::external_body]
pub(crate) fn join_path(dir: &str, file: &str) -> (r: String)
    ensures
        r@ == joined_path(dir@, file@),
{
    std::path::Path::new(dir).join(file).to_string_lossy().to_string()
}

/// `task` is rebuilt from `persisted` at time `now` (see `restore_task`).
pub open spec fn is_restored_task(task: DownloadTask, persisted: PersistedTask, now: i64) -> bool {
    &&& task.id@ == persisted.id@
    &&& task.file_name@ == persisted.file_name@
    &&& task.home_account_id@ == persisted.home_account_id@
    &&& task.drive_id@ == persisted.drive_id@
    &&& task.item_id@ == persisted.item_id@
    &&& task.local_path@ == persisted.local_path@
    &&& task.total_bytes == persisted.total_bytes
    &&& task.status@ == restored_status(persisted.status@)
    &&& task.cloud_env@ == persisted.cloud_env@
    &&& task.download_url@ == Seq::<char>::empty()
    &&& task.bearer_token is None
    &&& task.url_obtained_at == match crate::time::rfc3339_timestamp(persisted.url_obtained_at@) {
        Some(t) => t as int,
        None => now - 7200,
    }
    &&& task.chunks@ == persisted.chunks@.map_values(|p: PersistedChunk| chunk_of(p))
    &&& task.downloaded_bytes == persisted_downloaded_sum(persisted.chunks@)
    &&& task.batch_id@ == persisted.batch_id@
    &&& task.etag == persisted.etag
}

/// Rebuild a task from its persisted snapshot: exact chunk progress,
/// status per `restored_status`, no URL or token (a resume fetches fresh
/// ones), and the URL time read back from RFC 3339 or, where unreadable,
/// two hours before `now` (UTC seconds) so that it counts as stale.
pub fn restore_task(persisted: PersistedTask, tasks_dir: &str, now: i64) -> (task: DownloadTask)
    requires
        persisted_downloaded_sum(persisted.chunks@) <= u64::MAX,
        now >= i64::MIN + 7200,
    ensures
        is_restored_task(task, persisted, now),
{
    let sv = chars_of(persisted.status.as_str());
    let status = if chars_eq_str(sv.as_slice(), "completed") {
        TaskStatus::Completed
    } else if chars_eq_str(sv.as_slice(), "failed") {
        let empty = String::new();
        proof {
            assert(empty@ =~= Seq::<char>::empty());
        }
        TaskStatus::Failed(empty)
    } else {
        TaskStatus::Paused
    };
    let mut chunks: Vec<ChunkState> = Vec::new();
    let mut i: usize = 0;
    while i < persisted.chunks.len()
        invariant
            i <= persisted.chunks.len(),
            chunks@ == persisted.chunks@.take(i as int).map_values(|p: PersistedChunk| chunk_of(p)),
            downloaded_sum(chunks@) == persisted_downloaded_sum(persisted.chunks@.take(i as int)),
        decreases persisted.chunks.len() - i,
    {
        let p = persisted.chunks[i];
        chunks.push(ChunkState { start: p.start, end: p.end, downloaded: p.downloaded });
        proof {
            let t = persisted.chunks@.take(i + 1);
            assert(t.drop_last() =~= persisted.chunks@.take(i as int));
            assert(chunks@.drop_last() =~= persisted.chunks@.take(i as int).map_values(
                |p: PersistedChunk| chunk_of(p),
            ));
            assert(chunks@ =~= t.map_values(|p: PersistedChunk| chunk_of(p)));
        }
        i = i + 1;
    }
    proof {
        assert(persisted.chunks@.take(persisted.chunks@.len() as int) =~= persisted.chunks@);
    }
    let downloaded = chunk_downloaded_sum(chunks.as_slice());
    let url_obtained_at = match crate::time::parse_rfc3339_timestamp(persisted.url_obtained_at.as_str()) {
        Some(t) => t,
        None => now - 7200,
    };
    let mut file: Vec<char> = Vec::new();
    extend_str(&mut file, persisted.id.as_str());
    extend_str(&mut file, ".json");
    let file_name_json = string_of(file.as_slice());
    let persist_path = join_path(tasks_dir, file_name_json.as_str());
    DownloadTask {
        id: persisted.id,
        file_name: persisted.file_name,
        home_account_id: persisted.home_account_id,
        drive_id: persisted.drive_id,
        item_id: persisted.item_id,
        local_path: persisted.local_path,
        total_bytes: persisted.total_bytes,
        downloaded_bytes: downloaded,
        status,
        cloud_env: persisted.cloud_env,
        download_url: String::new(),
        bearer_token: None,
        url_obtained_at,
        chunks,
        batch_id: persisted.batch_id,
        etag: persisted.etag,
        persist_path,
    }
}

// ── Fetching chunks ─────────────────────────────────────────────────────

/// Chunk ranges are well formed: each starts at or before its end, and its
/// length fits a `u64`.
pub open spec fn chunks_well_formed(chunks: Seq<ChunkState>) -> bool {
    forall|i: int| 0 <= i < chunks.len() ==> #[trigger] chunks[i].start <= chunks[i].end && chunks[i].end - chunks[i].start < u64::MAX
}

/// A chunk still to fetch: its index, and the inclusive byte range still
/// missing (from past what is already on disk to its end).
pub type PendingRange = (usize, u64, u64);

/// The ranges still to fetch, in chunk order: a chunk with all its bytes
/// on disk is skipped; another resumes after its downloaded bytes.
pub open spec fn pending_ranges(chunks: Seq<ChunkState>) -> Seq<(int, int, int)>
    decreases chunks.len(),
{
    if chunks.len() == 0 {
        Seq::empty()
    } else {
        let r = pending_ranges(chunks.drop_last());
        let c = chunks.last();
        if c.downloaded >= c.end - c.start + 1 {
            r
        } else {
            r.push((chunks.len() - 1, c.start + c.downloaded, c.end as int))
        }
    }
}

/// The view of pending ranges.
pub open spec fn ranges_view(v: Seq<PendingRange>) -> Seq<(int, int, int)> {
    v.map_values(|p: PendingRange| (p.0 as int, p.1 as int, p.2 as int))
}

/// The ranges of a task still to fetch (see `pending_ranges`).
pub fn pending_chunk_ranges(chunks: &[ChunkState]) -> (v: Vec<PendingRange>)
    requires
        chunks_well_formed(chunks@),
    ensures
        ranges_view(v@) == pending_ranges(chunks@),
{
    let mut v: Vec<PendingRange> = Vec::new();
    let mut i: usize = 0;
    while i < chunks.len()
        invariant
            i <= chunks.len(),
            chunks_well_formed(chunks@),
            ranges_view(v@) == pending_ranges(chunks@.take(i as int)),
        decreases chunks.len() - i,
    {
        let c = chunks[i];
        proof {
            assert(chunks@.take(i + 1).drop_last() =~= chunks@.take(i as int));
            assert(chunks@.take(i + 1).last() == c);
            assert(c.start <= c.end && c.end - c.start < u64::MAX);
        }
        if c.downloaded < c.end - c.start + 1 {
            let ghost before = v@;
            v.push((i, c.start + c.downloaded, c.end));
            proof {
                assert(ranges_view(v@) =~= ranges_view(before).push((i as int, c.start + c.downloaded, c.end as int)));
            }
        }
        i = i + 1;
    }
    proof {
        assert(chunks@.take(chunks@.len() as int) =~= chunks@);
    }
    v
}

/// The `Range` header of a request for the bytes `start..=end`.
pub open spec fn range_header_of(start: u64, end: u64) -> Seq<char> {
    "bytes="@ + crate::transcript::decimal(start as nat) + "-"@ + crate::transcript::decimal(end as nat)
}

/// The `Range` header for `start..=end` (see `range_header_of`).
pub fn range_header(start: u64, end: u64) -> (h: String)
    ensures
        h@ == range_header_of(start, end),
{
    let mut out: Vec<char> = Vec::new();
    extend_str(&mut out, "bytes=");
    crate::text::extend_chars(&mut out, crate::transcript::decimal_chars(start).as_slice());
    extend_str(&mut out, "-");
    crate::text::extend_chars(&mut out, crate::transcript::decimal_chars(end).as_slice());
    string_of(out.as_slice())
}

/// Whether a chunk request's response is taken: any success status (2xx),
/// partial content among them; anything else fails the chunk with
/// `Unexpected status code: {status}`.
pub fn chunk_response_error(status: u16) -> (r: Option<String>)
    ensures
        match r {
            None => 200 <= status <= 299,
            Some(m) => !(200 <= status <= 299) && m@ == "Unexpected status code: "@ + crate::transcript::decimal(status as nat),
        },
{
    if (200 <= status && status <= 299) || status == 206 {
        None
    } else {
        let mut out: Vec<char> = Vec::new();
        extend_str(&mut out, "Unexpected status code: ");
        crate::text::extend_chars(&mut out, crate::transcript::decimal_chars(status as u64).as_slice());
        Some(string_of(out.as_slice()))
    }
}

/// The first failure among the chunk results, in chunk order.
pub fn first_chunk_error(results: &Vec<Result<(), String>>) -> (r: Option<String>)
    ensures
        match r {
            None => forall|i: int| 0 <= i < results@.len() ==> #[trigger] results@[i] is Ok,
            Some(e) => exists|i: int|
                0 <= i < results@.len() && results@[i] == Err::<(), String>(e) && forall|j: int| 0 <= j < i ==> #[trigger] results@[j] is Ok,
        },
{
    let mut i: usize = 0;
    while i < results.len()
        invariant
            i <= results.len(),
            forall|j: int| 0 <= j < i ==> #[trigger] results@[j] is Ok,
        decreases results.len() - i,
    {
        match &results[i] {
            Ok(()) => {},
            Err(e) => {
                let m = e.clone();
                assert(results@[i as int] == Err::<(), String>(m));
                return Some(m);
            },
        }
        i = i + 1;
    }
    None
}

// ── Naming around existing files ────────────────────────────────────────

/// The stem and extension of a file name as `Path::file_stem` and
/// `Path::extension` document them: no `.` inside, or a name that starts
/// with its only `.`, has no extension and is its own stem; otherwise the
/// stem is what comes before the final `.` and the extension what follows.
pub open spec fn stem_and_extension(name: Seq<char>) -> (Seq<char>, Option<Seq<char>>) {
    match crate::text::last_index_of(name, '.') {
        None => (name, None),
        Some(i) => if i == 0 {
            (name, None)
        } else {
            (name.subrange(0, i), Some(name.subrange(i + 1, name.len() as int)))
        },
    }
}

/// The `i`-th name tried for a download whose file exists:
/// `{stem} ({i}).{extension}`, or `{stem} ({i})` without an extension; a
/// path without a file name counts as `file`.
pub open spec fn conflict_name(file_name: Option<Seq<char>>, i: u32) -> Seq<char> {
    let (stem, ext) = match file_name {
        Some(n) => stem_and_extension(n),
        None => ("file"@, None),
    };
    match ext {
        Some(e) => stem + " ("@ + crate::transcript::decimal(i as nat) + ")."@ + e,
        None => stem + " ("@ + crate::transcript::decimal(i as nat) + ")"@,
    }
}

/// The `i`-th name tried when a download's file exists (see
/// `conflict_name`); the caller tries `i = 1, 2, …` until a name is free.
pub fn conflict_candidate(file_name: Option<&str>, i: u32) -> (n: String)
    ensures
        n@ == conflict_name(
            match file_name {
                Some(f) => Some(f@),
                None => None,
            },
            i,
        ),
{
    let mut out: Vec<char> = Vec::new();
    let digits = crate::transcript::decimal_chars(i as u64);
    match file_name {
        None => {
            extend_str(&mut out, "file");
            extend_str(&mut out, " (");
            crate::text::extend_chars(&mut out, digits.as_slice());
            extend_str(&mut out, ")");
        },
        Some(f) => {
            let cs = chars_of(f);
            match crate::text::rfind_char(cs.as_slice(), '.') {
                Some(p) if p > 0 => {
                    let stem = crate::text::slice_chars(cs.as_slice(), 0, p);
                    let ext = crate::text::slice_chars(cs.as_slice(), p + 1, cs.len());
                    crate::text::extend_chars(&mut out, stem.as_slice());
                    extend_str(&mut out, " (");
                    crate::text::extend_chars(&mut out, digits.as_slice());
                    extend_str(&mut out, ").");
                    crate::text::extend_chars(&mut out, ext.as_slice());
                },
                _ => {
                    crate::text::extend_chars(&mut out, cs.as_slice());
                    extend_str(&mut out, " (");
                    crate::text::extend_chars(&mut out, digits.as_slice());
                    extend_str(&mut out, ")");
                },
            }
        },
    }
    string_of(out.as_slice())
}

// ── Folder downloads ────────────────────────────────────────────────────

/// The first page of a folder's children: `{base}/drives/{drive}/items/{folder}/children?$top=200`.
pub open spec fn children_url_of(base: Seq<char>, drive: Seq<char>, folder: Seq<char>) -> Seq<char> {
    base + "/drives/"@ + drive + "/items/"@ + folder + "/children?$top=200"@
}

/// The first page of a folder's children (see `children_url_of`).
pub fn folder_children_url(base: &str, drive: &str, folder: &str) -> (u: String)
    ensures
        u@ == children_url_of(base@, drive@, folder@),
{
    let mut out: Vec<char> = Vec::new();
    extend_str(&mut out, base);
    extend_str(&mut out, "/drives/");
    extend_str(&mut out, drive);
    extend_str(&mut out, "/items/");
    extend_str(&mut out, folder);
    extend_str(&mut out, "/children?$top=200");
    string_of(out.as_slice())
}

/// A child in a folder listing: whether it is a folder (a folder, a
/// package, or a shortcut to either), and what the listing gave of it.
#[derive(Debug, Clone)]
pub struct FolderChild {
    pub id: Option<String>,
    pub name: Option<String>,
    pub size: Option<u64>,
    pub is_folder: bool,
    pub download_url: Option<String>,
}

/// What a folder download does with a child of the folder.
#[derive(Debug)]
pub enum FolderChildAction {
    /// Nothing: it has no name, or it lacks an id or a download URL.
    Skip,
    /// Descend into the subfolder `item_id`, downloaded into `local_path`.
    Descend { item_id: String, local_path: String },
    /// Fetch the file.
    Fetch(DownloadParams),
}

/// The text of an optional string, empty when absent.
pub open spec fn text_or_empty(o: Option<String>) -> Seq<char> {
    match o {
        Some(s) => s@,
        None => Seq::empty(),
    }
}

/// Decides what a folder download does with one child: a child without a
/// name is skipped; a folder with an id is descended into; a file with an
/// id and a download URL is fetched with the account's token (size 0 when
/// unknown); anything else is skipped. Either way the child goes to its
/// name joined to `local_dir`.
pub fn folder_child_action(
    child: &FolderChild,
    cloud_env: &str,
    home_account_id: &str,
    drive_id: &str,
    token: &str,
    local_dir: &str,
) -> (a: FolderChildAction)
    ensures
        text_or_empty(child.name).len() == 0 ==> a is Skip,
        text_or_empty(child.name).len() > 0 && child.is_folder ==> match a {
            FolderChildAction::Descend { item_id, local_path } => {
                &&& text_or_empty(child.id).len() > 0
                &&& item_id@ == text_or_empty(child.id)
                &&& local_path@ == joined_path(local_dir@, text_or_empty(child.name))
            },
            FolderChildAction::Skip => text_or_empty(child.id).len() == 0,
            _ => false,
        },
        text_or_empty(child.name).len() > 0 && !child.is_folder ==> match a {
            FolderChildAction::Fetch(p) => {
                &&& text_or_empty(child.id).len() > 0
                &&& text_or_empty(child.download_url).len() > 0
                &&& p.file_name@ == text_or_empty(child.name)
                &&& p.home_account_id@ == home_account_id@
                &&& p.cloud_env@ == cloud_env@
                &&& p.drive_id@ == drive_id@
                &&& p.item_id@ == text_or_empty(child.id)
                &&& p.local_path@ == joined_path(local_dir@, text_or_empty(child.name))
                &&& p.total_bytes == match child.size {
                    Some(n) => n,
                    None => 0,
                }
                &&& p.download_url@ == text_or_empty(child.download_url)
                &&& p.bearer_token matches Some(t) && t@ == token@
            },
            FolderChildAction::Skip => text_or_empty(child.id).len() == 0 || text_or_empty(child.download_url).len() == 0,
            _ => false,
        },
{
    let name = text_of(&child.name);
    if chars_of(name.as_str()).len() == 0 {
        return FolderChildAction::Skip;
    }
    let id = text_of(&child.id);
    let local_path = join_path(local_dir, name.as_str());
    if child.is_folder {
        if chars_of(id.as_str()).len() == 0 {
            return FolderChildAction::Skip;
        }
        FolderChildAction::Descend { item_id: id, local_path }
    } else {
        let url = text_of(&child.download_url);
        if chars_of(id.as_str()).len() == 0 || chars_of(url.as_str()).len() == 0 {
            return FolderChildAction::Skip;
        }
        FolderChildAction::Fetch(DownloadParams {
            file_name: name,
            home_account_id: home_account_id.to_owned(),
            cloud_env: cloud_env.to_owned(),
            drive_id: drive_id.to_owned(),
            item_id: id,
            local_path,
            total_bytes: match child.size {
                Some(n) => n,
                None => 0,
            },
            download_url: url,
            bearer_token: Some(token.to_owned()),
        })
    }
}

/// The text of an optional string, empty when absent.
fn text_of(o: &Option<String>) -> (s: String)
    ensures
        s@ == text_or_empty(*o),
{
    match o {
        Some(t) => t.clone(),
        None => {
            let e = String::new();
            proof {
                assert(e@ =~= Seq::<char>::empty());
            }
            e
        },
    }
}

} // verus!
