//! The download engine's ledger: the tasks and batches it tracks, keyed by
//! id, and the decisions taken on them (pause, resume, cancel, remove, a
//! child finishing, a batch's state following its children). The transfers
//! themselves, the files on disk and the progress events are the caller's;
//! each operation says what of them to do.

use vstd::prelude::*;
use crate::download::{
    batch_status, batch_status_from_statuses, status_name, status_named, status_views,
    task_status_from_str, task_status_string,
    calculate_chunks, chunk_downloaded_sum, downloaded_sum, is_chunk_plan, is_restored_task,
    persisted_downloaded_sum, persisted_of, restore_task, BatchInfo, ChunkState, DownloadParams,
    DownloadTask, PersistedBatch, PersistedChunk, PersistedTask, StatusView, TaskStatus,
};
use crate::time::{format_rfc3339, rfc3339_text};
use crate::errors::AppError;
use crate::text::{chars_of, contains_seq, extend_str, find_chars, string_of};

verus! {

// ── Finding entries by id ───────────────────────────────────────────────

/// Position of the first `id` in `ids`.
pub open spec fn first_index(ids: Seq<Seq<char>>, id: Seq<char>) -> Option<int>
    decreases ids.len(),
{
    if ids.len() == 0 {
        None
    } else {
        match first_index(ids.drop_last(), id) {
            Some(i) => Some(i),
            None => if ids.last() == id {
                Some(ids.len() - 1)
            } else {
                None
            },
        }
    }
}

/// No id occurs twice.
pub open spec fn distinct_ids(ids: Seq<Seq<char>>) -> bool {
    forall|i: int, j: int| 0 <= i < ids.len() && 0 <= j < ids.len() && i != j ==> #[trigger] ids[i] != #[trigger] ids[j]
}

/// `first_index` finds the first occurrence, and only misses absent ids.
pub proof fn lemma_first_index(ids: Seq<Seq<char>>, id: Seq<char>)
    ensures
        match first_index(ids, id) {
            Some(i) => 0 <= i < ids.len() && ids[i] == id && forall|k: int| 0 <= k < i ==> ids[k] != id,
            None => forall|k: int| 0 <= k < ids.len() ==> ids[k] != id,
        },
    decreases ids.len(),
{
    if ids.len() > 0 {
        let d = ids.drop_last();
        lemma_first_index(d, id);
        assert forall|k: int| 0 <= k < d.len() implies d[k] == ids[k] by {}
    }
}

/// An id present at `i` with none before is found at `i`.
proof fn lemma_first_index_is(ids: Seq<Seq<char>>, id: Seq<char>, i: int)
    requires
        0 <= i < ids.len(),
        ids[i] == id,
        forall|k: int| 0 <= k < i ==> ids[k] != id,
    ensures
        first_index(ids, id) == Some(i),
    decreases ids.len(),
{
    if i < ids.len() - 1 {
        lemma_first_index_is(ids.drop_last(), id, i);
    } else {
        lemma_first_index(ids.drop_last(), id);
    }
}

/// Among distinct ids, the one at `i` is found at `i`.
proof fn lemma_distinct_found(ids: Seq<Seq<char>>, i: int)
    requires
        distinct_ids(ids),
        0 <= i < ids.len(),
    ensures
        first_index(ids, ids[i]) == Some(i),
{
    assert forall|k: int| 0 <= k < i implies ids[k] != ids[i] by {
        assert(ids[k] != ids[i]);
    }
    lemma_first_index_is(ids, ids[i], i);
}

/// The ids of tasks.
pub open spec fn task_ids(tasks: Seq<DownloadTask>) -> Seq<Seq<char>> {
    tasks.map_values(|t: DownloadTask| t.id@)
}

/// The ids of batches.
pub open spec fn batch_ids(batches: Seq<DownloadBatch>) -> Seq<Seq<char>> {
    batches.map_values(|b: DownloadBatch| b.id@)
}

/// The texts of a list of ids.
pub open spec fn id_texts(ids: Seq<String>) -> Seq<Seq<char>> {
    ids.map_values(|s: String| s@)
}

/// Whether two strings are equal.
fn same_text(a: &str, b: &str) -> (r: bool)
    ensures
        r == (a@ == b@),
{
    let ca = chars_of(a);
    crate::text::chars_eq_str(ca.as_slice(), b)
}

/// Position of the task with id `id` (see `first_index`).
fn find_task(tasks: &Vec<DownloadTask>, id: &str) -> (r: Option<usize>)
    ensures
        match r {
            Some(i) => i < tasks@.len() && first_index(task_ids(tasks@), id@) == Some(i as int),
            None => first_index(task_ids(tasks@), id@) is None,
        },
{
    let ghost ids = task_ids(tasks@);
    let mut i: usize = 0;
    while i < tasks.len()
        invariant
            i <= tasks.len(),
            ids == task_ids(tasks@),
            forall|k: int| 0 <= k < i ==> ids[k] != id@,
        decreases tasks.len() - i,
    {
        if same_text(tasks[i].id.as_str(), id) {
            proof {
                lemma_first_index_is(ids, id@, i as int);
            }
            return Some(i);
        }
        i = i + 1;
    }
    proof {
        lemma_first_index(ids, id@);
    }
    None
}

/// Position of the batch with id `id` (see `first_index`).
fn find_batch(batches: &Vec<DownloadBatch>, id: &str) -> (r: Option<usize>)
    ensures
        match r {
            Some(i) => i < batches@.len() && first_index(batch_ids(batches@), id@) == Some(i as int),
            None => first_index(batch_ids(batches@), id@) is None,
        },
{
    let ghost ids = batch_ids(batches@);
    let mut i: usize = 0;
    while i < batches.len()
        invariant
            i <= batches.len(),
            ids == batch_ids(batches@),
            forall|k: int| 0 <= k < i ==> ids[k] != id@,
        decreases batches.len() - i,
    {
        if same_text(batches[i].id.as_str(), id) {
            proof {
                lemma_first_index_is(ids, id@, i as int);
            }
            return Some(i);
        }
        i = i + 1;
    }
    proof {
        lemma_first_index(ids, id@);
    }
    None
}

// ── Batches and the ledger ──────────────────────────────────────────────

/// A batch of file downloads started together.
#[derive(Debug, Clone)]
pub struct DownloadBatch {
    pub id: String,
    pub name: String,
    pub task_ids: Vec<String>,
    pub total_bytes: u64,
    pub home_account_id: String,
    pub downloaded_bytes: u64,
    pub status: TaskStatus,
    pub error: Option<String>,
    pub local_path: String,
    pub cloud_env: String,
    pub drive_id: String,
    /// When the batch's URLs were obtained, in UTC seconds.
    pub url_obtained_at: i64,
}

/// The tasks and batches the engine tracks, each keyed by its id.
#[derive(Debug)]
pub struct DownloadEngine {
    pub tasks: Vec<DownloadTask>,
    pub batches: Vec<DownloadBatch>,
    /// Directory of the persisted state (`tasks/` and `batches/` below it).
    pub state_dir: String,
}

/// The status of a batch's child `id`: its task's, or a failure with no
/// message when the task is gone.
pub open spec fn child_status(tasks: Seq<DownloadTask>, id: Seq<char>) -> StatusView {
    match first_index(task_ids(tasks), id) {
        Some(i) => tasks[i].status@,
        None => StatusView::Failed(Seq::empty()),
    }
}

/// The statuses of a batch's children.
pub open spec fn child_statuses(tasks: Seq<DownloadTask>, ids: Seq<Seq<char>>) -> Seq<StatusView> {
    ids.map_values(|id: Seq<char>| child_status(tasks, id))
}

/// The bytes a batch's children have downloaded; a gone task counts none.
pub open spec fn children_downloaded(tasks: Seq<DownloadTask>, ids: Seq<Seq<char>>) -> nat
    decreases ids.len(),
{
    if ids.len() == 0 {
        0
    } else {
        children_downloaded(tasks, ids.drop_last()) + match first_index(task_ids(tasks), ids.last()) {
            Some(i) => tasks[i].downloaded_bytes as nat,
            None => 0,
        }
    }
}

/// The error a batch carries in a state: the failure's message, if failed.
pub open spec fn status_error(s: StatusView) -> Option<Seq<char>> {
    match s {
        StatusView::Failed(m) => Some(m),
        _ => None,
    }
}

/// The view of an optional string.
pub open spec fn opt_text(o: Option<String>) -> Option<Seq<char>> {
    match o {
        Some(s) => Some(s@),
        None => None,
    }
}

impl DownloadEngine {
    /// Task ids and batch ids are each unique.
    pub open spec fn wf(&self) -> bool {
        &&& distinct_ids(task_ids(self.tasks@))
        &&& distinct_ids(batch_ids(self.batches@))
    }

    /// The batch with id `id`, if tracked.
    pub open spec fn batch(&self, id: Seq<char>) -> Option<DownloadBatch> {
        match first_index(batch_ids(self.batches@), id) {
            Some(i) => Some(self.batches@[i]),
            None => None,
        }
    }

    /// The task with id `id`, if tracked.
    pub open spec fn task(&self, id: Seq<char>) -> Option<DownloadTask> {
        match first_index(task_ids(self.tasks@), id) {
            Some(i) => Some(self.tasks@[i]),
            None => None,
        }
    }
}

/// A copy of a status.
pub fn copy_status(s: &TaskStatus) -> (r: TaskStatus)
    ensures
        r@ == s@,
{
    match s {
        TaskStatus::Queued => TaskStatus::Queued,
        TaskStatus::Downloading => TaskStatus::Downloading,
        TaskStatus::Paused => TaskStatus::Paused,
        TaskStatus::Completed => TaskStatus::Completed,
        TaskStatus::Failed(m) => TaskStatus::Failed(m.clone()),
    }
}

/// The statuses of the children `ids` (see `child_status`).
fn statuses_of_children(tasks: &Vec<DownloadTask>, ids: &Vec<String>) -> (r: Vec<TaskStatus>)
    ensures
        status_views(r@) == child_statuses(tasks@, id_texts(ids@)),
{
    let mut r: Vec<TaskStatus> = Vec::new();
    let mut k: usize = 0;
    while k < ids.len()
        invariant
            k <= ids.len(),
            status_views(r@) == child_statuses(tasks@, id_texts(ids@)).take(k as int),
        decreases ids.len() - k,
    {
        let s = match find_task(tasks, ids[k].as_str()) {
            Some(i) => copy_status(&tasks[i].status),
            None => {
                let empty = String::new();
                proof {
                    assert(empty@ =~= Seq::<char>::empty());
                }
                TaskStatus::Failed(empty)
            },
        };
        proof {
            assert(s@ == child_status(tasks@, ids@[k as int]@));
        }
        let ghost before = r@;
        r.push(s);
        proof {
            assert(status_views(r@) =~= status_views(before).push(s@));
            assert(child_statuses(tasks@, id_texts(ids@)).take(k + 1) =~= child_statuses(tasks@, id_texts(ids@)).take(k as int).push(
                child_status(tasks@, ids@[k as int]@),
            ));
        }
        k = k + 1;
    }
    proof {
        assert(child_statuses(tasks@, id_texts(ids@)).take(ids.len() as int) =~= child_statuses(tasks@, id_texts(ids@)));
    }
    r
}

/// Sums over a prefix of the children are at most the sum over all.
proof fn lemma_children_downloaded_prefix(tasks: Seq<DownloadTask>, ids: Seq<Seq<char>>, k: int)
    requires
        0 <= k <= ids.len(),
    ensures
        children_downloaded(tasks, ids.take(k)) <= children_downloaded(tasks, ids),
    decreases ids.len() - k,
{
    if k < ids.len() {
        lemma_children_downloaded_prefix(tasks, ids, k + 1);
        assert(ids.take(k + 1).drop_last() =~= ids.take(k));
    } else {
        assert(ids.take(k) =~= ids);
    }
}

/// The bytes the children `ids` have downloaded (see
/// `children_downloaded`).
fn downloaded_of_children(tasks: &Vec<DownloadTask>, ids: &Vec<String>) -> (n: u64)
    requires
        children_downloaded(tasks@, id_texts(ids@)) <= u64::MAX,
    ensures
        n == children_downloaded(tasks@, id_texts(ids@)),
{
    let ghost all = id_texts(ids@);
    let mut n: u64 = 0;
    let mut k: usize = 0;
    proof {
        assert(all.take(0) =~= Seq::<Seq<char>>::empty());
    }
    while k < ids.len()
        invariant
            k <= ids.len(),
            all == id_texts(ids@),
            children_downloaded(tasks@, all) <= u64::MAX,
            n == children_downloaded(tasks@, all.take(k as int)),
        decreases ids.len() - k,
    {
        proof {
            assert(all.take(k + 1).drop_last() =~= all.take(k as int));
            assert(all.take(k + 1).last() == ids@[k as int]@);
            lemma_children_downloaded_prefix(tasks@, all, k + 1);
        }
        match find_task(tasks, ids[k].as_str()) {
            Some(i) => {
                n = n + tasks[i].downloaded_bytes;
            },
            None => {},
        }
        k = k + 1;
    }
    proof {
        assert(all.take(ids.len() as int) =~= all);
    }
    n
}

/// `b` with a new state, byte count and error.
pub open spec fn with_progress(b: DownloadBatch, status: TaskStatus, downloaded: u64, error: Option<String>) -> DownloadBatch {
    DownloadBatch { status, downloaded_bytes: downloaded, error, ..b }
}

/// The state a batch's children put it in (see `batch_status`).
pub open spec fn batch_state_of(tasks: Seq<DownloadTask>, b: DownloadBatch) -> StatusView {
    batch_status(child_statuses(tasks, id_texts(b.task_ids@)))
}

/// The bytes of a batch's children fit the counter.
pub open spec fn batch_bytes_fit(tasks: Seq<DownloadTask>, b: DownloadBatch) -> bool {
    children_downloaded(tasks, id_texts(b.task_ids@)) <= u64::MAX
}

/// A copy of an optional string.
fn copy_opt_string(o: &Option<String>) -> (r: Option<String>)
    ensures
        r == *o,
{
    match o {
        Some(s) => Some(s.clone()),
        None => None,
    }
}

impl DownloadEngine {
    /// Recomputes a batch's state, byte count and error from its children
    /// (see `batch_state_of`); `None` for an unknown batch, else whether the
    /// batch is now complete (its persisted state can then be dropped).
    pub fn update_batch_status(&mut self, batch_id: &str) -> (r: Option<bool>)
        requires
            old(self).wf(),
            old(self).batch(batch_id@) matches Some(b) ==> batch_bytes_fit(old(self).tasks@, b),
        ensures
            final(self).wf(),
            final(self).tasks == old(self).tasks,
            final(self).state_dir == old(self).state_dir,
            match first_index(batch_ids(old(self).batches@), batch_id@) {
                None => r is None && final(self).batches == old(self).batches,
                Some(i) => {
                    let b = old(self).batches@[i];
                    let s = batch_state_of(old(self).tasks@, b);
                    let nb = final(self).batches@[i];
                    &&& r == Some(s == StatusView::Completed)
                    &&& final(self).batches@ == old(self).batches@.update(i, with_progress(b, nb.status, nb.downloaded_bytes, nb.error))
                    &&& nb.status@ == s
                    &&& nb.downloaded_bytes == children_downloaded(old(self).tasks@, id_texts(b.task_ids@))
                    &&& opt_text(nb.error) == status_error(s)
                },
            },
    {
        let i = match find_batch(&self.batches, batch_id) {
            Some(i) => i,
            None => {
                return None;
            },
        };
        let statuses = statuses_of_children(&self.tasks, &self.batches[i].task_ids);
        let status = batch_status_from_statuses(statuses.as_slice());
        let downloaded = downloaded_of_children(&self.tasks, &self.batches[i].task_ids);
        let error = match &status {
            TaskStatus::Failed(m) => Some(m.clone()),
            _ => None,
        };
        let completed = match &status {
            TaskStatus::Completed => true,
            _ => false,
        };
        let ghost old_batches = self.batches@;
        let mut b = self.batches.remove(i);
        b.status = status;
        b.downloaded_bytes = downloaded;
        b.error = error;
        self.batches.insert(i, b);
        proof {
            assert(self.batches@ =~= old_batches.update(i as int, self.batches@[i as int]));
            assert(batch_ids(self.batches@) =~= batch_ids(old_batches));
        }
        Some(completed)
    }
}

// ── Pausing and resuming ────────────────────────────────────────────────

/// Whether `e` is the transfer error with message `m` about `id`.
pub open spec fn is_transfer_error(e: AppError, m: Seq<char>, id: Seq<char>) -> bool {
    e matches AppError::Transfer { message, task_id } && message@ == m && task_id@ == id
}

/// The transfer error with message `m` about `id`.
fn transfer_error(m: &str, id: &str) -> (e: AppError)
    ensures
        is_transfer_error(e, m@, id@),
{
    AppError::Transfer { message: m.to_owned(), task_id: id.to_owned() }
}

/// An id is among the first `k + 1` ids when it is among the first `k` or
/// is the next one.
proof fn lemma_take_contains(ids: Seq<Seq<char>>, k: int, x: Seq<char>)
    requires
        0 <= k < ids.len(),
    ensures
        ids.take(k + 1).contains(x) == (ids.take(k).contains(x) || ids[k] == x),
{
    if ids.take(k + 1).contains(x) {
        let p = choose|p: int| 0 <= p < k + 1 && #[trigger] ids.take(k + 1)[p] == x;
        if p < k {
            assert(ids.take(k)[p] == x);
        }
    }
    if ids.take(k).contains(x) {
        let p = choose|p: int| 0 <= p < k && #[trigger] ids.take(k)[p] == x;
        assert(ids.take(k + 1)[p] == x);
    }
    if ids[k] == x {
        assert(ids.take(k + 1)[k] == x);
    }
}

/// The ids among `ids` whose task is tracked, in order.
pub open spec fn tracked_ids(tasks: Seq<DownloadTask>, ids: Seq<Seq<char>>) -> Seq<Seq<char>>
    decreases ids.len(),
{
    if ids.len() == 0 {
        Seq::empty()
    } else {
        let r = tracked_ids(tasks, ids.drop_last());
        if first_index(task_ids(tasks), ids.last()) is Some {
            r.push(ids.last())
        } else {
            r
        }
    }
}

/// The tasks after pausing those whose id is among `ids`.
pub open spec fn paused_tasks(tasks: Seq<DownloadTask>, ids: Seq<Seq<char>>) -> Seq<DownloadTask> {
    tasks.map_values(
        |t: DownloadTask|
            if ids.contains(t.id@) {
                DownloadTask { status: TaskStatus::Paused, ..t }
            } else {
                t
            },
    )
}

/// What the caller does after a pause: stop and persist the transfers of
/// `task_ids`, and report the batch paused with its name, size, progress
/// and folder.
#[derive(Debug)]
pub struct PauseReport {
    pub task_ids: Vec<String>,
    pub name: String,
    pub total_bytes: u64,
    pub downloaded_bytes: u64,
    pub local_path: String,
}

/// `b` in state `status`.
pub open spec fn with_status(b: DownloadBatch, status: TaskStatus) -> DownloadBatch {
    DownloadBatch { status, ..b }
}

impl DownloadEngine {
    /// Pauses a downloading batch and every tracked child of it. An unknown
    /// batch is `Task not found`, one that is not downloading `Task is not
    /// currently downloading`; both leave the engine as it was.
    pub fn pause_batch(&mut self, batch_id: &str) -> (r: Result<PauseReport, AppError>)
        requires
            old(self).wf(),
        ensures
            final(self).wf(),
            final(self).state_dir == old(self).state_dir,
            match first_index(batch_ids(old(self).batches@), batch_id@) {
                None => {
                    &&& r matches Err(e) && is_transfer_error(e, "Task not found"@, batch_id@)
                    &&& *final(self) == *old(self)
                },
                Some(i) => {
                    let b = old(self).batches@[i];
                    let ids = id_texts(b.task_ids@);
                    if b.status@ != StatusView::Downloading {
                        &&& r matches Err(e) && is_transfer_error(e, "Task is not currently downloading"@, batch_id@)
                        &&& *final(self) == *old(self)
                    } else {
                        &&& r matches Ok(rep) && {
                            &&& id_texts(rep.task_ids@) == tracked_ids(old(self).tasks@, ids)
                            &&& rep.name == b.name
                            &&& rep.total_bytes == b.total_bytes
                            &&& rep.downloaded_bytes == b.downloaded_bytes
                            &&& rep.local_path == b.local_path
                        }
                        &&& final(self).batches@ == old(self).batches@.update(i, with_status(b, TaskStatus::Paused))
                        &&& final(self).tasks@ == paused_tasks(old(self).tasks@, ids)
                    }
                },
            },
    {
        let i = match find_batch(&self.batches, batch_id) {
            Some(i) => i,
            None => {
                return Err(transfer_error("Task not found", batch_id));
            },
        };
        match &self.batches[i].status {
            TaskStatus::Downloading => {},
            _ => {
                return Err(transfer_error("Task is not currently downloading", batch_id));
            },
        }
        let ghost old_tasks = self.tasks@;
        let ghost ids = id_texts(self.batches@[i as int].task_ids@);
        let mut paused: Vec<String> = Vec::new();
        let mut k: usize = 0;
        proof {
            assert(self.tasks@ =~= paused_tasks(old_tasks, ids.take(0)));
            assert(id_texts(paused@) =~= tracked_ids(old_tasks, ids.take(0)));
        }
        while k < self.batches[i].task_ids.len()
            invariant
                i < self.batches@.len(),
                self.batches == old(self).batches,
                self.state_dir == old(self).state_dir,
                old(self).wf(),
                old_tasks == old(self).tasks@,
                ids == id_texts(self.batches@[i as int].task_ids@),
                k <= ids.len(),
                self.tasks@ == paused_tasks(old_tasks, ids.take(k as int)),
                id_texts(paused@) == tracked_ids(old_tasks, ids.take(k as int)),
            decreases ids.len() - k,
        {
            let ghost cur = self.tasks@;
            proof {
                assert(task_ids(cur) =~= task_ids(old_tasks));
                assert(ids.take(k + 1).drop_last() =~= ids.take(k as int));
                assert(ids.take(k + 1).last() == ids[k as int]);
            }
            match find_task(&self.tasks, self.batches[i].task_ids[k].as_str()) {
                Some(j) => {
                    let mut t = self.tasks.remove(j);
                    t.status = TaskStatus::Paused;
                    self.tasks.insert(j, t);
                    paused.push(self.batches[i].task_ids[k].clone());
                    proof {
                        lemma_first_index(task_ids(old_tasks), ids[k as int]);
                        assert forall|m: int| 0 <= m < self.tasks@.len() implies #[trigger] self.tasks@[m]
                            == paused_tasks(old_tasks, ids.take(k + 1))[m] by {
                            let tm = old_tasks[m];
                            assert(task_ids(old_tasks)[m] == tm.id@);
                            lemma_take_contains(ids, k as int, tm.id@);
                            if m != j {
                                assert(task_ids(old_tasks)[j as int] == ids[k as int]);
                                assert(task_ids(old_tasks)[m] != task_ids(old_tasks)[j as int]);
                            }
                        }
                        assert(self.tasks@ =~= paused_tasks(old_tasks, ids.take(k + 1)));
                        assert(id_texts(paused@) =~= id_texts(paused@).drop_last().push(ids[k as int]));
                    }
                },
                None => {
                    proof {
                        lemma_first_index(task_ids(old_tasks), ids[k as int]);
                        assert forall|m: int| 0 <= m < self.tasks@.len() implies #[trigger] self.tasks@[m]
                            == paused_tasks(old_tasks, ids.take(k + 1))[m] by {
                            let tm = old_tasks[m];
                            assert(task_ids(old_tasks)[m] == tm.id@);
                            lemma_take_contains(ids, k as int, tm.id@);
                        }
                        assert(self.tasks@ =~= paused_tasks(old_tasks, ids.take(k + 1)));
                    }
                },
            }
            k = k + 1;
        }
        proof {
            assert(ids.take(ids.len() as int) =~= ids);
            assert(task_ids(self.tasks@) =~= task_ids(old_tasks));
        }
        let rep = PauseReport {
            task_ids: paused,
            name: self.batches[i].name.clone(),
            total_bytes: self.batches[i].total_bytes,
            downloaded_bytes: self.batches[i].downloaded_bytes,
            local_path: self.batches[i].local_path.clone(),
        };
        let ghost old_batches = self.batches@;
        let mut b = self.batches.remove(i);
        b.status = TaskStatus::Paused;
        self.batches.insert(i, b);
        proof {
            assert(self.batches@ =~= old_batches.update(i as int, with_status(old_batches[i as int], TaskStatus::Paused)));
            assert(batch_ids(self.batches@) =~= batch_ids(old_batches));
        }
        Ok(rep)
    }
}

/// Where a resumed task downloads from: `{base}/drives/{drive}/items/{item}/content`.
pub open spec fn content_url(base: Seq<char>, drive: Seq<char>, item: Seq<char>) -> Seq<char> {
    base + "/drives/"@ + drive + "/items/"@ + item + "/content"@
}

/// The content URL of an item (see `content_url`).
fn item_content_url(base: &str, drive: &str, item: &str) -> (u: String)
    ensures
        u@ == content_url(base@, drive@, item@),
{
    let mut out: Vec<char> = Vec::new();
    extend_str(&mut out, base);
    extend_str(&mut out, "/drives/");
    extend_str(&mut out, drive);
    extend_str(&mut out, "/items/");
    extend_str(&mut out, item);
    extend_str(&mut out, "/content");
    string_of(out.as_slice())
}

/// Whether a resume restarts task `t`: it belongs to the batch (`ids`) and
/// has not completed.
pub open spec fn restarts(t: DownloadTask, ids: Seq<Seq<char>>) -> bool {
    ids.contains(t.id@) && t.status@ != StatusView::Completed
}

/// `new` is `old` restarted: downloading again from the item's content URL
/// under `base`, with the token `token`, its URL obtained at `now`.
pub open spec fn restarted(new: DownloadTask, old: DownloadTask, base: Seq<char>, token: Seq<char>, now: i64) -> bool {
    &&& new.download_url@ == content_url(base, old.drive_id@, old.item_id@)
    &&& new.bearer_token matches Some(tk) && tk@ == token
    &&& new == DownloadTask {
        status: TaskStatus::Downloading,
        url_obtained_at: now,
        download_url: new.download_url,
        bearer_token: new.bearer_token,
        ..old
    }
}

/// The ids among `ids` whose task is tracked and not completed, in order
/// (an id listed twice is restarted twice).
pub open spec fn restarted_ids(tasks: Seq<DownloadTask>, ids: Seq<Seq<char>>) -> Seq<Seq<char>>
    decreases ids.len(),
{
    if ids.len() == 0 {
        Seq::empty()
    } else {
        let r = restarted_ids(tasks, ids.drop_last());
        match first_index(task_ids(tasks), ids.last()) {
            Some(i) => if tasks[i].status@ != StatusView::Completed {
                r.push(ids.last())
            } else {
                r
            },
            None => r,
        }
    }
}

/// `b` downloading again, its error cleared.
pub open spec fn batch_resumed(b: DownloadBatch) -> DownloadBatch {
    DownloadBatch { status: TaskStatus::Downloading, error: None, ..b }
}

impl DownloadEngine {
    /// Resumes a paused batch: every tracked child that has not completed
    /// restarts from a fresh content URL under `base_url` with `token` (see
    /// `restarted`), and the ids to start transfers for come back in batch
    /// order. An unknown batch is `Task not found`, one that is not paused
    /// `Task is not paused`; both leave the engine as it was.
    pub fn resume_batch(&mut self, batch_id: &str, base_url: &str, token: &str, now: i64) -> (r: Result<Vec<String>, AppError>)
        requires
            old(self).wf(),
        ensures
            final(self).wf(),
            final(self).state_dir == old(self).state_dir,
            match first_index(batch_ids(old(self).batches@), batch_id@) {
                None => {
                    &&& r matches Err(e) && is_transfer_error(e, "Task not found"@, batch_id@)
                    &&& *final(self) == *old(self)
                },
                Some(i) => {
                    let b = old(self).batches@[i];
                    let ids = id_texts(b.task_ids@);
                    if b.status@ != StatusView::Paused {
                        &&& r matches Err(e) && is_transfer_error(e, "Task is not paused"@, batch_id@)
                        &&& *final(self) == *old(self)
                    } else {
                        &&& r matches Ok(spawn) && id_texts(spawn@) == restarted_ids(old(self).tasks@, ids)
                        &&& final(self).batches@ == old(self).batches@.update(i, batch_resumed(b))
                        &&& final(self).tasks@.len() == old(self).tasks@.len()
                        &&& forall|m: int| 0 <= m < old(self).tasks@.len() ==> if restarts(#[trigger] old(self).tasks@[m], ids) {
                            restarted(final(self).tasks@[m], old(self).tasks@[m], base_url@, token@, now)
                        } else {
                            final(self).tasks@[m] == old(self).tasks@[m]
                        }
                    }
                },
            },
    {
        let i = match find_batch(&self.batches, batch_id) {
            Some(i) => i,
            None => {
                return Err(transfer_error("Task not found", batch_id));
            },
        };
        match &self.batches[i].status {
            TaskStatus::Paused => {},
            _ => {
                return Err(transfer_error("Task is not paused", batch_id));
            },
        }
        let ghost old_batches = self.batches@;
        let mut b = self.batches.remove(i);
        b.status = TaskStatus::Downloading;
        b.error = None;
        self.batches.insert(i, b);
        proof {
            assert(self.batches@ =~= old_batches.update(i as int, batch_resumed(old_batches[i as int])));
            assert(batch_ids(self.batches@) =~= batch_ids(old_batches));
        }
        let ghost old_tasks = self.tasks@;
        let ghost ids = id_texts(self.batches@[i as int].task_ids@);
        let mut spawn: Vec<String> = Vec::new();
        let mut k: usize = 0;
        proof {
            assert(id_texts(spawn@) =~= restarted_ids(old_tasks, ids.take(0)));
        }
        while k < self.batches[i].task_ids.len()
            invariant
                i < self.batches@.len(),
                self.batches@ == old(self).batches@.update(i as int, batch_resumed(old(self).batches@[i as int])),
                self.state_dir == old(self).state_dir,
                distinct_ids(batch_ids(self.batches@)),
                distinct_ids(task_ids(old_tasks)),
                old_tasks == old(self).tasks@,
                ids == id_texts(self.batches@[i as int].task_ids@),
                k <= ids.len(),
                self.tasks@.len() == old_tasks.len(),
                task_ids(self.tasks@) == task_ids(old_tasks),
                forall|m: int| 0 <= m < old_tasks.len() ==> if restarts(#[trigger] old_tasks[m], ids.take(k as int)) {
                    restarted(self.tasks@[m], old_tasks[m], base_url@, token@, now)
                } else {
                    self.tasks@[m] == old_tasks[m]
                },
                id_texts(spawn@) == restarted_ids(old_tasks, ids.take(k as int)),
            decreases ids.len() - k,
        {
            let ghost cur = self.tasks@;
            proof {
                assert(ids.take(k + 1).drop_last() =~= ids.take(k as int));
                assert(ids.take(k + 1).last() == ids[k as int]);
                lemma_first_index(task_ids(old_tasks), ids[k as int]);
            }
            match find_task(&self.tasks, self.batches[i].task_ids[k].as_str()) {
                Some(j) => {
                    proof {
                        assert(task_ids(old_tasks)[j as int] == ids[k as int]);
                        lemma_take_contains(ids, k as int, old_tasks[j as int].id@);
                    }
                    let done = match &self.tasks[j].status {
                        TaskStatus::Completed => true,
                        _ => false,
                    };
                    if !done {
                        let url = item_content_url(base_url, self.tasks[j].drive_id.as_str(), self.tasks[j].item_id.as_str());
                        let mut t = self.tasks.remove(j);
                        t.download_url = url;
                        t.url_obtained_at = now;
                        t.bearer_token = Some(token.to_owned());
                        t.status = TaskStatus::Downloading;
                        self.tasks.insert(j, t);
                        spawn.push(self.batches[i].task_ids[k].clone());
                        proof {
                            assert(id_texts(spawn@) =~= id_texts(spawn@).drop_last().push(ids[k as int]));
                        }
                    }
                    proof {
                        assert forall|m: int| 0 <= m < old_tasks.len() implies if restarts(#[trigger] old_tasks[m], ids.take(k + 1)) {
                            restarted(self.tasks@[m], old_tasks[m], base_url@, token@, now)
                        } else {
                            self.tasks@[m] == old_tasks[m]
                        } by {
                            assert(task_ids(old_tasks)[m] == old_tasks[m].id@);
                            lemma_take_contains(ids, k as int, old_tasks[m].id@);
                            if m != j {
                                assert(task_ids(old_tasks)[m] != task_ids(old_tasks)[j as int]);
                                assert(self.tasks@[m] == cur[m]);
                            }
                        }
                        assert(task_ids(self.tasks@) =~= task_ids(old_tasks));
                    }
                },
                None => {
                    proof {
                        assert forall|m: int| 0 <= m < old_tasks.len() implies if restarts(#[trigger] old_tasks[m], ids.take(k + 1)) {
                            restarted(self.tasks@[m], old_tasks[m], base_url@, token@, now)
                        } else {
                            self.tasks@[m] == old_tasks[m]
                        } by {
                            assert(task_ids(old_tasks)[m] == old_tasks[m].id@);
                            lemma_take_contains(ids, k as int, old_tasks[m].id@);
                        }
                    }
                },
            }
            k = k + 1;
        }
        proof {
            assert(ids.take(ids.len() as int) =~= ids);
        }
        Ok(spawn)
    }
}

// ── Cancelling and removing ─────────────────────────────────────────────

/// Whether `id` is among `ids`.
fn contains_id(ids: &Vec<String>, id: &str) -> (r: bool)
    ensures
        r == id_texts(ids@).contains(id@),
{
    let ghost all = id_texts(ids@);
    let mut k: usize = 0;
    while k < ids.len()
        invariant
            k <= ids.len(),
            all == id_texts(ids@),
            forall|m: int| 0 <= m < k ==> all[m] != id@,
        decreases ids.len() - k,
    {
        if same_text(ids[k].as_str(), id) {
            assert(all[k as int] == id@);
            return true;
        }
        k = k + 1;
    }
    false
}

/// The tasks that stay when those whose id is among `ids` are dropped, in
/// their order.
pub open spec fn tasks_kept(tasks: Seq<DownloadTask>, ids: Seq<Seq<char>>) -> Seq<DownloadTask>
    decreases tasks.len(),
{
    if tasks.len() == 0 {
        Seq::empty()
    } else {
        let r = tasks_kept(tasks.drop_last(), ids);
        if ids.contains(tasks.last().id@) {
            r
        } else {
            r.push(tasks.last())
        }
    }
}

/// What to clean up on disk for a dropped task: its file (where
/// `delete_local`) and its persisted state.
#[derive(Debug)]
pub struct FileCleanup {
    pub local_path: String,
    pub delete_local: bool,
    pub persist_path: String,
}

/// The view of a cleanup.
pub open spec fn cleanup_view(c: FileCleanup) -> (Seq<char>, bool, Seq<char>) {
    (c.local_path@, c.delete_local, c.persist_path@)
}

/// The cleanups for the tasks dropped with `ids`, in task order: a
/// cancelled batch (`keep_completed` false) loses every file; a removed one
/// keeps the files of completed tasks.
pub open spec fn cleanups_for(tasks: Seq<DownloadTask>, ids: Seq<Seq<char>>, keep_completed: bool) -> Seq<(Seq<char>, bool, Seq<char>)>
    decreases tasks.len(),
{
    if tasks.len() == 0 {
        Seq::empty()
    } else {
        let r = cleanups_for(tasks.drop_last(), ids, keep_completed);
        let t = tasks.last();
        if ids.contains(t.id@) {
            r.push((t.local_path@, !(keep_completed && t.status@ == StatusView::Completed), t.persist_path@))
        } else {
            r
        }
    }
}

/// What the caller does after a batch is dropped: the per-task cleanups,
/// and the batch's persisted file to delete.
#[derive(Debug)]
pub struct DropReport {
    pub cleanups: Vec<FileCleanup>,
    pub batch_file: String,
}

/// Keeping a subset of tasks keeps their ids distinct.
proof fn lemma_kept_distinct(tasks: Seq<DownloadTask>, ids: Seq<Seq<char>>)
    requires
        distinct_ids(task_ids(tasks)),
    ensures
        distinct_ids(task_ids(tasks_kept(tasks, ids))),
        forall|k: int| 0 <= k < tasks_kept(tasks, ids).len() ==> task_ids(tasks).contains(#[trigger] tasks_kept(tasks, ids)[k].id@),
    decreases tasks.len(),
{
    if tasks.len() > 0 {
        let d = tasks.drop_last();
        assert(task_ids(d) =~= task_ids(tasks).drop_last());
        assert forall|i: int, j: int| 0 <= i < task_ids(d).len() && 0 <= j < task_ids(d).len() && i != j implies #[trigger] task_ids(d)[i] != #[trigger] task_ids(d)[j] by {
            assert(task_ids(tasks)[i] != task_ids(tasks)[j]);
        }
        lemma_kept_distinct(d, ids);
        let r = tasks_kept(d, ids);
        let last = tasks.last();
        assert forall|k: int| 0 <= k < r.len() implies task_ids(tasks).contains(#[trigger] r[k].id@) by {
            let p = choose|p: int| 0 <= p < task_ids(d).len() && task_ids(d)[p] == r[k].id@;
            assert(task_ids(tasks)[p] == r[k].id@);
        }
        if !ids.contains(last.id@) {
            let nr = r.push(last);
            assert(task_ids(tasks)[tasks.len() - 1] == last.id@);
            assert forall|k: int| 0 <= k < r.len() implies #[trigger] r[k].id@ != last.id@ by {
                let p = choose|p: int| 0 <= p < task_ids(d).len() && task_ids(d)[p] == r[k].id@;
                assert(task_ids(tasks)[p] != task_ids(tasks)[tasks.len() - 1]);
            }
            assert forall|i: int, j: int| 0 <= i < task_ids(nr).len() && 0 <= j < task_ids(nr).len() && i != j implies #[trigger] task_ids(nr)[i] != #[trigger] task_ids(nr)[j] by {
                if i < r.len() && j < r.len() {
                    assert(task_ids(r)[i] != task_ids(r)[j]);
                } else if i < r.len() {
                    assert(r[i].id@ != last.id@);
                } else if j < r.len() {
                    assert(r[j].id@ != last.id@);
                }
            }
            assert forall|k: int| 0 <= k < nr.len() implies task_ids(tasks).contains(#[trigger] nr[k].id@) by {
                if k < r.len() {
                    assert(nr[k] == r[k]);
                } else {
                    assert(task_ids(tasks)[tasks.len() - 1] == nr[k].id@);
                }
            }
        }
    }
}

/// Batches without the one at `i` keep their ids distinct.
proof fn lemma_batch_removed_distinct(batches: Seq<DownloadBatch>, i: int)
    requires
        distinct_ids(batch_ids(batches)),
        0 <= i < batches.len(),
    ensures
        distinct_ids(batch_ids(batches.remove(i))),
{
    let r = batches.remove(i);
    assert forall|a: int, b: int| 0 <= a < batch_ids(r).len() && 0 <= b < batch_ids(r).len() && a != b implies #[trigger] batch_ids(r)[a] != #[trigger] batch_ids(r)[b] by {
        let oa = if a < i { a } else { a + 1 };
        let ob = if b < i { b } else { b + 1 };
        assert(batch_ids(r)[a] == batch_ids(batches)[oa]);
        assert(batch_ids(r)[b] == batch_ids(batches)[ob]);
    }
}

impl DownloadEngine {
    /// The path of a batch's persisted file under the state directory.
    fn batch_file_path(&self, batch_id: &str) -> (p: String)
        ensures
            p@ == crate::download::joined_path(
                crate::download::joined_path(self.state_dir@, "batches"@),
                batch_id@ + ".json"@,
            ),
    {
        let mut f: Vec<char> = Vec::new();
        extend_str(&mut f, batch_id);
        extend_str(&mut f, ".json");
        let dir = crate::download::join_path(self.state_dir.as_str(), "batches");
        crate::download::join_path(dir.as_str(), string_of(f.as_slice()).as_str())
    }

    /// Drops a batch and its tracked tasks (see `tasks_kept` and
    /// `cleanups_for`).
    fn drop_batch(&mut self, batch_id: &str, keep_completed: bool) -> (r: Result<DropReport, AppError>)
        requires
            old(self).wf(),
        ensures
            final(self).wf(),
            final(self).state_dir == old(self).state_dir,
            match first_index(batch_ids(old(self).batches@), batch_id@) {
                None => {
                    &&& r matches Err(e) && is_transfer_error(e, "Task not found"@, batch_id@)
                    &&& *final(self) == *old(self)
                },
                Some(i) => {
                    let ids = id_texts(old(self).batches@[i].task_ids@);
                    &&& r matches Ok(rep) && rep.cleanups@.map_values(|c: FileCleanup| cleanup_view(c))
                        == cleanups_for(old(self).tasks@, ids, keep_completed)
                    &&& final(self).batches@ == old(self).batches@.remove(i)
                    &&& final(self).tasks@ == tasks_kept(old(self).tasks@, ids)
                },
            },
    {
        let i = match find_batch(&self.batches, batch_id) {
            Some(i) => i,
            None => {
                return Err(transfer_error("Task not found", batch_id));
            },
        };
        proof {
            lemma_batch_removed_distinct(self.batches@, i as int);
        }
        let batch = self.batches.remove(i);
        let ghost ids = id_texts(batch.task_ids@);
        let mut src: Vec<DownloadTask> = Vec::new();
        std::mem::swap(&mut src, &mut self.tasks);
        let ghost orig = src@;
        let mut kept: Vec<DownloadTask> = Vec::new();
        let mut cleanups: Vec<FileCleanup> = Vec::new();
        let ghost mut n: int = 0;
        proof {
            assert(orig.take(0) =~= Seq::<DownloadTask>::empty());
            assert(kept@ =~= tasks_kept(orig.take(0), ids));
            assert(cleanups@.map_values(|c: FileCleanup| cleanup_view(c)) =~= cleanups_for(orig.take(0), ids, keep_completed));
        }
        while src.len() > 0
            invariant
                0 <= n <= orig.len(),
                src@ == orig.skip(n),
                kept@ == tasks_kept(orig.take(n), ids),
                cleanups@.map_values(|c: FileCleanup| cleanup_view(c)) == cleanups_for(orig.take(n), ids, keep_completed),
                ids == id_texts(batch.task_ids@),
            decreases src.len(),
        {
            let t = src.remove(0);
            proof {
                assert(orig.take(n + 1).drop_last() =~= orig.take(n));
                assert(orig.take(n + 1).last() == t);
                assert(src@ =~= orig.skip(n + 1));
            }
            if contains_id(&batch.task_ids, t.id.as_str()) {
                let completed = match &t.status {
                    TaskStatus::Completed => true,
                    _ => false,
                };
                let ghost before = cleanups@.map_values(|c: FileCleanup| cleanup_view(c));
                cleanups.push(FileCleanup {
                    local_path: t.local_path,
                    delete_local: !(keep_completed && completed),
                    persist_path: t.persist_path,
                });
                proof {
                    assert(cleanups@.map_values(|c: FileCleanup| cleanup_view(c)) =~= before.push(cleanup_view(cleanups@.last())));
                }
            } else {
                kept.push(t);
            }
            proof {
                n = n + 1;
            }
        }
        proof {
            assert(orig.take(n) =~= orig);
            lemma_kept_distinct(orig, ids);
        }
        self.tasks = kept;
        let batch_file = self.batch_file_path(batch_id);
        Ok(DropReport { cleanups, batch_file })
    }

    /// Cancels a batch: it and its tracked tasks are dropped, and every one
    /// of their files is to be deleted, with the persisted state. An unknown
    /// batch is `Task not found` and changes nothing.
    pub fn cancel_batch(&mut self, batch_id: &str) -> (r: Result<DropReport, AppError>)
        requires
            old(self).wf(),
        ensures
            final(self).wf(),
            final(self).state_dir == old(self).state_dir,
            match first_index(batch_ids(old(self).batches@), batch_id@) {
                None => {
                    &&& r matches Err(e) && is_transfer_error(e, "Task not found"@, batch_id@)
                    &&& *final(self) == *old(self)
                },
                Some(i) => {
                    let ids = id_texts(old(self).batches@[i].task_ids@);
                    &&& r matches Ok(rep) && rep.cleanups@.map_values(|c: FileCleanup| cleanup_view(c))
                        == cleanups_for(old(self).tasks@, ids, false)
                    &&& final(self).batches@ == old(self).batches@.remove(i)
                    &&& final(self).tasks@ == tasks_kept(old(self).tasks@, ids)
                },
            },
    {
        self.drop_batch(batch_id, false)
    }

    /// Removes a batch from the engine: like a cancel, but the files of
    /// completed tasks are kept. An unknown batch is `Task not found` and
    /// changes nothing.
    pub fn remove_batch(&mut self, batch_id: &str) -> (r: Result<DropReport, AppError>)
        requires
            old(self).wf(),
        ensures
            final(self).wf(),
            final(self).state_dir == old(self).state_dir,
            match first_index(batch_ids(old(self).batches@), batch_id@) {
                None => {
                    &&& r matches Err(e) && is_transfer_error(e, "Task not found"@, batch_id@)
                    &&& *final(self) == *old(self)
                },
                Some(i) => {
                    let ids = id_texts(old(self).batches@[i].task_ids@);
                    &&& r matches Ok(rep) && rep.cleanups@.map_values(|c: FileCleanup| cleanup_view(c))
                        == cleanups_for(old(self).tasks@, ids, true)
                    &&& final(self).batches@ == old(self).batches@.remove(i)
                    &&& final(self).tasks@ == tasks_kept(old(self).tasks@, ids)
                },
            },
    {
        self.drop_batch(batch_id, true)
    }
}

// ── A child transfer finishing ──────────────────────────────────────────

/// The view of a transfer's result.
pub open spec fn result_view(r: Result<(), String>) -> Result<(), Seq<char>> {
    match r {
        Ok(()) => Ok(()),
        Err(e) => Err(e@),
    }
}

/// The state name and error a child transfer ends with: `completed`;
/// `paused` when it was cancelled (its error says so); else `failed`, with
/// the error.
pub open spec fn child_outcome(r: Result<(), Seq<char>>) -> (Seq<char>, Option<Seq<char>>) {
    match r {
        Ok(_) => ("completed"@, None),
        Err(e) => if contains_seq(e, "cancelled"@) {
            ("paused"@, None)
        } else {
            ("failed"@, Some(e))
        },
    }
}

/// What the caller reports when a child transfer ends: whether to send a
/// progress event at all, and the state and error it carries.
#[derive(Debug)]
pub struct ChildReport {
    pub emit: bool,
    pub status: String,
    pub error: Option<String>,
}

/// The state and error reported when a child of `batch` ends with
/// `outcome`: the batch's state once recomputed, when the batch is tracked,
/// else the child's own; the error only for a failure, the batch's where it
/// has one.
pub open spec fn reported(batch: Option<DownloadBatch>, outcome: (Seq<char>, Option<Seq<char>>)) -> (Seq<char>, Option<Seq<char>>) {
    let status = match batch {
        Some(b) => status_name(b.status@),
        None => outcome.0,
    };
    let error = if status == "failed"@ {
        match batch {
            Some(b) => match opt_text(b.error) {
                Some(m) => Some(m),
                None => outcome.1,
            },
            None => outcome.1,
        }
    } else {
        None
    };
    (status, error)
}

/// The byte count of a batch's children depends only on their ids and byte
/// counts.
proof fn lemma_children_downloaded_same(t1: Seq<DownloadTask>, t2: Seq<DownloadTask>, ids: Seq<Seq<char>>)
    requires
        task_ids(t1) == task_ids(t2),
        t1.len() == t2.len(),
        forall|k: int| 0 <= k < t1.len() ==> #[trigger] t1[k].downloaded_bytes == t2[k].downloaded_bytes,
    ensures
        children_downloaded(t1, ids) == children_downloaded(t2, ids),
    decreases ids.len(),
{
    if ids.len() > 0 {
        lemma_children_downloaded_same(t1, t2, ids.drop_last());
        lemma_first_index(task_ids(t1), ids.last());
    }
}

impl DownloadEngine {
    /// Records that the transfer of child `task_id` of `batch_id` ended with
    /// `result`: the task, if still tracked, takes the outcome's state (see
    /// `child_outcome`; a failure keeps no message), the batch is recomputed
    /// (see `update_batch_status`), and the report carries what `reported`
    /// says; no event is sent for a cancelled child whose batch dropped it.
    pub fn finish_child(&mut self, task_id: &str, batch_id: &str, result: &Result<(), String>) -> (rep: ChildReport)
        requires
            old(self).wf(),
            old(self).batch(batch_id@) matches Some(b) ==> batch_bytes_fit(old(self).tasks@, b),
        ensures
            final(self).wf(),
            final(self).state_dir == old(self).state_dir,
            ({
                let outcome = child_outcome(result_view(*result));
                let existed = first_index(task_ids(old(self).tasks@), task_id@) is Some;
                let (status, error) = reported(final(self).batch(batch_id@), outcome);
                &&& match first_index(task_ids(old(self).tasks@), task_id@) {
                    Some(j) => {
                        &&& final(self).tasks@ == old(self).tasks@.update(
                            j,
                            DownloadTask { status: final(self).tasks@[j].status, ..old(self).tasks@[j] },
                        )
                        &&& status_named(outcome.0) == Some(final(self).tasks@[j].status@)
                    },
                    None => final(self).tasks == old(self).tasks,
                }
                &&& match first_index(batch_ids(old(self).batches@), batch_id@) {
                    None => final(self).batches == old(self).batches,
                    Some(i) => {
                        let b = old(self).batches@[i];
                        let s = batch_state_of(final(self).tasks@, b);
                        let nb = final(self).batches@[i];
                        &&& final(self).batches@ == old(self).batches@.update(i, with_progress(b, nb.status, nb.downloaded_bytes, nb.error))
                        &&& nb.status@ == s
                        &&& nb.downloaded_bytes == children_downloaded(final(self).tasks@, id_texts(b.task_ids@))
                        &&& opt_text(nb.error) == status_error(s)
                    },
                }
                &&& rep.status@ == status
                &&& opt_text(rep.error) == error
                &&& rep.emit == !(!existed && status == "paused"@)
            }),
    {
        let (status_text, error): (String, Option<String>) = match result {
            Ok(()) => ("completed".to_owned(), None),
            Err(e) => {
                let ev = chars_of(e.as_str());
                let needle = chars_of("cancelled");
                if find_chars(ev.as_slice(), needle.as_slice()).is_some() {
                    ("paused".to_owned(), None)
                } else {
                    ("failed".to_owned(), Some(e.clone()))
                }
            },
        };
        let existed = match find_task(&self.tasks, task_id) {
            Some(j) => {
                let new_status = match task_status_from_str(status_text.as_str()) {
                    Some(st) => st,
                    None => TaskStatus::Failed(String::new()),
                };
                let ghost before = self.tasks@;
                let mut t = self.tasks.remove(j);
                t.status = new_status;
                self.tasks.insert(j, t);
                proof {
                    assert(self.tasks@ =~= before.update(j as int, DownloadTask { status: self.tasks@[j as int].status, ..before[j as int] }));
                    assert(task_ids(self.tasks@) =~= task_ids(before));
                    assert forall|k: int| 0 <= k < before.len() implies #[trigger] before[k].downloaded_bytes == self.tasks@[k].downloaded_bytes by {}
                    lemma_children_downloaded_same(before, self.tasks@, id_texts(old(self).batch(batch_id@).unwrap().task_ids@));
                }
                true
            },
            None => false,
        };
        let updated = self.update_batch_status(batch_id);
        let reported_status = match find_batch(&self.batches, batch_id) {
            Some(i) => task_status_string(&self.batches[i].status),
            None => status_text.clone(),
        };
        let reported_error = if same_text(reported_status.as_str(), "failed") {
            match find_batch(&self.batches, batch_id) {
                Some(i) => match &self.batches[i].error {
                    Some(m) => Some(m.clone()),
                    None => error,
                },
                None => error,
            }
        } else {
            None
        };
        let emit = !(!existed && same_text(reported_status.as_str(), "paused"));
        ChildReport { emit, status: reported_status, error: reported_error }
    }
}

// ── Creating batches ────────────────────────────────────────────────────

/// A new random identifier, `uuid::Uuid::new_v4` in hyphenated form. It is
/// random, so nothing is claimed of it.
#[verifier::external_body]
pub(crate) fn new_id() -> String {
    uuid::Uuid::new_v4().to_string()
}

/// What `std::path::Path::parent` gives for a path, as lossy text: a
/// function of the path's text alone, whose syntax is the platform's.
pub uninterp spec fn parent_of_path(path: Seq<char>) -> Option<Seq<char>>;

/// The parent directory of a path as `std::path::Path::parent` gives it, as
/// lossy text (see `parent_of_path`).
#[verifier::external_body]
fn path_parent(path: &str) -> (r: Option<String>)
    ensures
        match r {
            Some(p) => parent_of_path(path@) == Some(p@),
            None => parent_of_path(path@) is None,
        },
{
    std::path::Path::new(path).parent().map(|p| p.to_string_lossy().to_string())
}

/// Adding an id that is not there keeps ids distinct and is found at the
/// end; every other id is found where it was.
proof fn lemma_push_fresh(ids: Seq<Seq<char>>, x: Seq<char>)
    requires
        distinct_ids(ids),
        first_index(ids, x) is None,
    ensures
        distinct_ids(ids.push(x)),
        forall|y: Seq<char>| #[trigger] first_index(ids.push(x), y) == if y == x {
            Some(ids.len() as int)
        } else {
            first_index(ids, y)
        },
{
    lemma_first_index(ids, x);
    let n = ids.push(x);
    assert(n.drop_last() =~= ids);
    assert forall|i: int, j: int| 0 <= i < n.len() && 0 <= j < n.len() && i != j implies #[trigger] n[i] != #[trigger] n[j] by {
        if i < ids.len() && j < ids.len() {
            assert(ids[i] != ids[j]);
        }
    }
}

/// The tasks with the same ids, one entry changed without changing its
/// id: every id is found where it was.
proof fn lemma_same_ids_found(a: Seq<DownloadTask>, b: Seq<DownloadTask>)
    requires
        task_ids(a) == task_ids(b),
    ensures
        forall|y: Seq<char>| #[trigger] first_index(task_ids(b), y) == first_index(task_ids(a), y),
{
}

impl DownloadEngine {
    /// Tracks `t` under its id, replacing a task with the same id.
    fn put_task(&mut self, t: DownloadTask)
        requires
            old(self).wf(),
        ensures
            final(self).wf(),
            final(self).batches == old(self).batches,
            final(self).state_dir == old(self).state_dir,
            final(self).task(t.id@) == Some(t),
            forall|x: Seq<char>| x != t.id@ ==> #[trigger] final(self).task(x) == old(self).task(x),
    {
        let ghost old_tasks = self.tasks@;
        match find_task(&self.tasks, t.id.as_str()) {
            Some(j) => {
                proof {
                    lemma_first_index(task_ids(old_tasks), t.id@);
                }
                self.tasks.remove(j);
                self.tasks.insert(j, t);
                proof {
                    assert(self.tasks@ =~= old_tasks.update(j as int, t));
                    assert(task_ids(self.tasks@) =~= task_ids(old_tasks));
                    lemma_same_ids_found(old_tasks, self.tasks@);
                    assert forall|x: Seq<char>| x != t.id@ implies #[trigger] self.task(x) == old(self).task(x) by {
                        lemma_first_index(task_ids(old_tasks), x);
                    }
                }
            },
            None => {
                let ghost id = t.id@;
                self.tasks.push(t);
                proof {
                    assert(task_ids(self.tasks@) =~= task_ids(old_tasks).push(id));
                    lemma_push_fresh(task_ids(old_tasks), id);
                    assert forall|x: Seq<char>| x != id implies #[trigger] self.task(x) == old(self).task(x) by {
                        lemma_first_index(task_ids(old_tasks), x);
                    }
                    assert(self.task(id) == Some(self.tasks@[old_tasks.len() as int]));
                }
            },
        }
    }

    /// Tracks `b` under its id, replacing a batch with the same id.
    fn put_batch(&mut self, b: DownloadBatch)
        requires
            old(self).wf(),
        ensures
            final(self).wf(),
            final(self).tasks == old(self).tasks,
            final(self).state_dir == old(self).state_dir,
            final(self).batch(b.id@) == Some(b),
            forall|x: Seq<char>| x != b.id@ ==> #[trigger] final(self).batch(x) == old(self).batch(x),
    {
        let ghost old_batches = self.batches@;
        match find_batch(&self.batches, b.id.as_str()) {
            Some(j) => {
                proof {
                    lemma_first_index(batch_ids(old_batches), b.id@);
                }
                self.batches.remove(j);
                self.batches.insert(j, b);
                proof {
                    assert(self.batches@ =~= old_batches.update(j as int, b));
                    assert(batch_ids(self.batches@) =~= batch_ids(old_batches));
                    assert forall|x: Seq<char>| x != b.id@ implies #[trigger] self.batch(x) == old(self).batch(x) by {
                        lemma_first_index(batch_ids(old_batches), x);
                    }
                }
            },
            None => {
                let ghost id = b.id@;
                self.batches.push(b);
                proof {
                    assert(batch_ids(self.batches@) =~= batch_ids(old_batches).push(id));
                    lemma_push_fresh(batch_ids(old_batches), id);
                    assert forall|x: Seq<char>| x != id implies #[trigger] self.batch(x) == old(self).batch(x) by {
                        lemma_first_index(batch_ids(old_batches), x);
                    }
                    assert(self.batch(id) == Some(self.batches@[old_batches.len() as int]));
                }
            },
        }
    }
}

/// The total size of the files `params` describe.
pub open spec fn params_total(params: Seq<DownloadParams>) -> nat
    decreases params.len(),
{
    if params.len() == 0 {
        0
    } else {
        params_total(params.drop_last()) + params.last().total_bytes as nat
    }
}

/// `t` is the new task for `p` in batch `batch_id`: downloading from `p`'s
/// URL with its token into its local path, split per the chunk plan,
/// nothing downloaded yet, its URL obtained at `now`.
pub open spec fn is_new_task(t: DownloadTask, p: DownloadParams, batch_id: Seq<char>, now: i64) -> bool {
    &&& t.file_name == p.file_name
    &&& t.home_account_id == p.home_account_id
    &&& t.drive_id == p.drive_id
    &&& t.item_id == p.item_id
    &&& t.local_path == p.local_path
    &&& t.total_bytes == p.total_bytes
    &&& t.downloaded_bytes == 0
    &&& t.status@ == StatusView::Downloading
    &&& t.cloud_env == p.cloud_env
    &&& t.download_url == p.download_url
    &&& t.bearer_token == p.bearer_token
    &&& t.url_obtained_at == now
    &&& is_chunk_plan(t.chunks@, p.total_bytes as nat)
    &&& t.batch_id@ == batch_id
    &&& t.etag is None
}

/// `b` is the new batch `name` over `params`: downloading, nothing
/// downloaded, sized as all the files together, owned by the first file's
/// account, drive and cloud, its URLs obtained at `now`; its folder is the
/// file's own path when there is one file, else the first file's parent
/// directory (`.` where its path has none).
pub open spec fn is_new_batch(b: DownloadBatch, name: String, params: Seq<DownloadParams>, now: i64) -> bool {
    &&& b.name == name
    &&& b.total_bytes == params_total(params)
    &&& b.home_account_id == params[0].home_account_id
    &&& b.downloaded_bytes == 0
    &&& b.status@ == StatusView::Downloading
    &&& b.error is None
    &&& b.cloud_env == params[0].cloud_env
    &&& b.drive_id == params[0].drive_id
    &&& b.url_obtained_at == now
    &&& params.len() == 1 ==> b.local_path == params[0].local_path
    &&& params.len() > 1 ==> b.local_path@ == match parent_of_path(params[0].local_path@) {
        Some(p) => p,
        None => "."@,
    }
}

/// A copy of an optional string.
fn copy_token(o: &Option<String>) -> (r: Option<String>)
    ensures
        r == *o,
{
    match o {
        Some(s) => Some(s.clone()),
        None => None,
    }
}

impl DownloadEngine {
    /// Starts tracking a batch of downloads: one new task per file (see
    /// `is_new_task`) under fresh random ids, and the batch over them (see
    /// `is_new_batch`). Gives the batch's id and name and the task ids, in
    /// the order of `params`, whose transfers the caller starts and
    /// persists. No files is `No files to download`, and changes nothing.
    pub fn create_batch(&mut self, batch_name: String, params: Vec<DownloadParams>, now: i64) -> (r: Result<(BatchInfo, Vec<String>), AppError>)
        requires
            old(self).wf(),
            params_total(params@) <= u64::MAX,
        ensures
            final(self).wf(),
            final(self).state_dir == old(self).state_dir,
            match r {
                Err(e) => {
                    &&& params@.len() == 0
                    &&& is_transfer_error(e, "No files to download"@, ""@)
                    &&& *final(self) == *old(self)
                },
                Ok((info, ids)) => {
                    &&& params@.len() > 0
                    &&& info.batch_name == batch_name
                    &&& ids@.len() == params@.len()
                    &&& final(self).batch(info.batch_id@) matches Some(b) && is_new_batch(b, batch_name, params@, now)
                        && b.task_ids@ == ids@
                    &&& forall|k: int| 0 <= k < ids@.len() && (forall|k2: int| k < k2 < ids@.len() ==> ids@[k2]@ != ids@[k]@)
                        ==> (final(self).task(#[trigger] ids@[k]@) matches Some(t) && is_new_task(t, params@[k], info.batch_id@, now))
                    &&& forall|x: Seq<char>| !id_texts(ids@).contains(x) ==> #[trigger] final(self).task(x) == old(self).task(x)
                    &&& forall|x: Seq<char>| x != info.batch_id@ ==> #[trigger] final(self).batch(x) == old(self).batch(x)
                },
            },
    {
        if params.len() == 0 {
            return Err(transfer_error("No files to download", ""));
        }
        let batch_id = new_id();
        let mut total: u64 = 0;
        let mut k: usize = 0;
        while k < params.len()
            invariant
                k <= params@.len(),
                params_total(params@) <= u64::MAX,
                total == params_total(params@.take(k as int)),
            decreases params.len() - k,
        {
            proof {
                assert(params@.take(k + 1).drop_last() =~= params@.take(k as int));
                lemma_params_total_prefix(params@, k + 1);
            }
            total = total + params[k].total_bytes;
            k = k + 1;
        }
        proof {
            assert(params@.take(params@.len() as int) =~= params@);
        }
        let mut ids: Vec<String> = Vec::new();
        let mut k: usize = 0;
        while k < params.len()
            invariant
                k <= params@.len(),
                ids@.len() == k,
                self.wf(),
                self.batches == old(self).batches,
                self.state_dir == old(self).state_dir,
                forall|m: int| 0 <= m < k && (forall|m2: int| m < m2 < k ==> ids@[m2]@ != ids@[m]@)
                    ==> (self.task(#[trigger] ids@[m]@) matches Some(t) && is_new_task(t, params@[m], batch_id@, now)),
                forall|x: Seq<char>| !id_texts(ids@).contains(x) ==> #[trigger] self.task(x) == old(self).task(x),
            decreases params.len() - k,
        {
            let id = new_id();
            let p = &params[k];
            let mut f: Vec<char> = Vec::new();
            extend_str(&mut f, id.as_str());
            extend_str(&mut f, ".json");
            let dir = crate::download::join_path(self.state_dir.as_str(), "tasks");
            let persist_path = crate::download::join_path(dir.as_str(), string_of(f.as_slice()).as_str());
            let t = DownloadTask {
                id: id.clone(),
                file_name: p.file_name.clone(),
                home_account_id: p.home_account_id.clone(),
                drive_id: p.drive_id.clone(),
                item_id: p.item_id.clone(),
                local_path: p.local_path.clone(),
                total_bytes: p.total_bytes,
                downloaded_bytes: 0,
                status: TaskStatus::Downloading,
                cloud_env: p.cloud_env.clone(),
                download_url: p.download_url.clone(),
                bearer_token: copy_token(&p.bearer_token),
                url_obtained_at: now,
                chunks: calculate_chunks(p.total_bytes),
                batch_id: batch_id.clone(),
                etag: None,
                persist_path,
            };
            let ghost ids_before = ids@;
            self.put_task(t);
            ids.push(id);
            proof {
                assert(id_texts(ids@) =~= id_texts(ids_before).push(ids@[k as int]@));
                assert forall|x: Seq<char>| !id_texts(ids@).contains(x) implies #[trigger] self.task(x) == old(self).task(x) by {
                    assert(id_texts(ids@)[k as int] == ids@[k as int]@);
                    if id_texts(ids_before).contains(x) {
                        let q = choose|q: int| 0 <= q < id_texts(ids_before).len() && id_texts(ids_before)[q] == x;
                        assert(id_texts(ids@)[q] == x);
                    }
                }
                assert forall|m: int| 0 <= m < k + 1 && (forall|m2: int| m < m2 < k + 1 ==> ids@[m2]@ != ids@[m]@)
                    implies (self.task(#[trigger] ids@[m]@) matches Some(t) && is_new_task(t, params@[m], batch_id@, now)) by {
                    if m < k {
                        assert(ids@[m] == ids_before[m]);
                        assert(ids@[k as int]@ != ids@[m]@);
                        assert forall|m2: int| m < m2 < k implies ids_before[m2]@ != ids_before[m]@ by {
                            assert(ids@[m2] == ids_before[m2]);
                        }
                    }
                }
            }
            k = k + 1;
        }
        let ghost idsv = ids@;
        let local_path = if params.len() == 1 {
            params[0].local_path.clone()
        } else {
            match path_parent(params[0].local_path.as_str()) {
                Some(p) => p,
                None => ".".to_owned(),
            }
        };
        let b = DownloadBatch {
            id: batch_id.clone(),
            name: batch_name.clone(),
            task_ids: ids,
            total_bytes: total,
            home_account_id: params[0].home_account_id.clone(),
            downloaded_bytes: 0,
            status: TaskStatus::Downloading,
            error: None,
            local_path,
            cloud_env: params[0].cloud_env.clone(),
            drive_id: params[0].drive_id.clone(),
            url_obtained_at: now,
        };
        let ids_out = copy_ids(&b.task_ids);
        let ghost bv = b;
        let ghost pre = *self;
        proof {
            assert(is_new_batch(bv, batch_name, params@, now));
        }
        self.put_batch(b);
        let info = BatchInfo { batch_id, batch_name };
        proof {
            assert(self.batch(info.batch_id@) == Some(bv));
            assert(ids_out@ == idsv);
            assert forall|x: Seq<char>| !id_texts(ids_out@).contains(x) implies #[trigger] self.task(x) == old(self).task(x) by {
                assert(id_texts(idsv) == id_texts(ids_out@));
                assert(pre.task(x) == old(self).task(x));
            }
            assert forall|k: int| 0 <= k < ids_out@.len() && (forall|k2: int| k < k2 < ids_out@.len() ==> ids_out@[k2]@ != ids_out@[k]@)
                implies (self.task(#[trigger] ids_out@[k]@) matches Some(t) && is_new_task(t, params@[k], info.batch_id@, now)) by {
                assert(pre.task(idsv[k]@) matches Some(t) && is_new_task(t, params@[k], info.batch_id@, now));
            }
        }
        Ok((info, ids_out))
    }
}

/// Sums over a prefix of the files are at most the sum over all.
proof fn lemma_params_total_prefix(params: Seq<DownloadParams>, k: int)
    requires
        0 <= k <= params.len(),
    ensures
        params_total(params.take(k)) <= params_total(params),
    decreases params.len() - k,
{
    if k < params.len() {
        lemma_params_total_prefix(params, k + 1);
        assert(params.take(k + 1).drop_last() =~= params.take(k));
    } else {
        assert(params.take(k) =~= params);
    }
}

/// A copy of a list of ids.
fn copy_ids(v: &Vec<String>) -> (r: Vec<String>)
    ensures
        r@ == v@,
{
    let mut r: Vec<String> = Vec::new();
    let mut k: usize = 0;
    while k < v.len()
        invariant
            k <= v.len(),
            r@ == v@.take(k as int),
        decreases v.len() - k,
    {
        r.push(v[k].clone());
        proof {
            assert(r@ =~= v@.take(k + 1));
        }
        k = k + 1;
    }
    proof {
        assert(v@.take(v.len() as int) =~= v@);
    }
    r
}

// ── Laws of the ledger ──────────────────────────────────────────────────

/// A batch that was cancelled or removed is forgotten: looking it up finds
/// nothing, and none of its tasks is tracked any more.
pub proof fn lemma_dropped_batch_is_forgotten(e: DownloadEngine, batch_id: Seq<char>)
    requires
        e.wf(),
        first_index(batch_ids(e.batches@), batch_id) is Some,
    ensures
        ({
            let i = first_index(batch_ids(e.batches@), batch_id).unwrap();
            let ids = id_texts(e.batches@[i].task_ids@);
            &&& first_index(batch_ids(e.batches@.remove(i)), batch_id) is None
            &&& forall|x: Seq<char>| #[trigger] ids.contains(x) ==> first_index(task_ids(tasks_kept(e.tasks@, ids)), x) is None
        }),
{
    let i = first_index(batch_ids(e.batches@), batch_id).unwrap();
    let ids = id_texts(e.batches@[i].task_ids@);
    lemma_first_index(batch_ids(e.batches@), batch_id);
    let r = e.batches@.remove(i);
    assert forall|k: int| 0 <= k < batch_ids(r).len() implies batch_ids(r)[k] != batch_id by {
        let o = if k < i { k } else { k + 1 };
        assert(batch_ids(r)[k] == batch_ids(e.batches@)[o]);
        assert(batch_ids(e.batches@)[o] != batch_ids(e.batches@)[i]);
    }
    lemma_first_index(batch_ids(r), batch_id);
    lemma_kept_excludes(e.tasks@, ids);
    assert forall|x: Seq<char>| #[trigger] ids.contains(x) implies first_index(task_ids(tasks_kept(e.tasks@, ids)), x) is None by {
        let kept = tasks_kept(e.tasks@, ids);
        lemma_first_index(task_ids(kept), x);
        if first_index(task_ids(kept), x) is Some {
            let k = first_index(task_ids(kept), x).unwrap();
            assert(task_ids(kept)[k] == kept[k].id@);
        }
    }
}

/// No task kept when `ids` are dropped has one of those ids.
proof fn lemma_kept_excludes(tasks: Seq<DownloadTask>, ids: Seq<Seq<char>>)
    ensures
        forall|k: int| 0 <= k < tasks_kept(tasks, ids).len() ==> !ids.contains(#[trigger] tasks_kept(tasks, ids)[k].id@),
    decreases tasks.len(),
{
    if tasks.len() > 0 {
        lemma_kept_excludes(tasks.drop_last(), ids);
    }
}

/// Pausing a batch and then resuming it restarts every one of its tracked
/// tasks: a pause leaves none of them completed.
pub proof fn lemma_resume_restarts_every_paused_child(tasks: Seq<DownloadTask>, ids: Seq<Seq<char>>)
    ensures
        forall|m: int| 0 <= m < tasks.len() && ids.contains(tasks[m].id@) ==> restarts(#[trigger] paused_tasks(tasks, ids)[m], ids),
{
}

// ── Reading the ledger ──────────────────────────────────────────────────

/// A batch as reported to the user interface after a restart (speed and
/// elapsed time are zero in such a report and are left to the caller).
#[derive(Debug, Clone)]
pub struct BatchSnapshot {
    pub id: String,
    pub name: String,
    pub status: String,
    pub total_bytes: u64,
    pub downloaded_bytes: u64,
    pub error: Option<String>,
    pub local_path: String,
    pub cloud_env: String,
    pub drive_id: String,
    pub home_account_id: String,
}

/// `s` reports batch `b`.
pub open spec fn is_snapshot_of(s: BatchSnapshot, b: DownloadBatch) -> bool {
    &&& s.id == b.id
    &&& s.name == b.name
    &&& s.status@ == status_name(b.status@)
    &&& s.total_bytes == b.total_bytes
    &&& s.downloaded_bytes == b.downloaded_bytes
    &&& s.error == b.error
    &&& s.local_path == b.local_path
    &&& s.cloud_env == b.cloud_env
    &&& s.drive_id == b.drive_id
    &&& s.home_account_id == b.home_account_id
}

/// The bytes the children `ids` have downloaded, or `None` where that does
/// not fit a `u64`.
fn children_bytes_checked(tasks: &Vec<DownloadTask>, ids: &Vec<String>) -> (r: Option<u64>)
    ensures
        match r {
            Some(n) => n == children_downloaded(tasks@, id_texts(ids@)),
            None => children_downloaded(tasks@, id_texts(ids@)) > u64::MAX,
        },
{
    let ghost all = id_texts(ids@);
    let mut n: u64 = 0;
    let mut k: usize = 0;
    while k < ids.len()
        invariant
            k <= ids.len(),
            all == id_texts(ids@),
            n == children_downloaded(tasks@, all.take(k as int)),
        decreases ids.len() - k,
    {
        proof {
            assert(all.take(k + 1).drop_last() =~= all.take(k as int));
            assert(all.take(k + 1).last() == ids@[k as int]@);
            lemma_children_downloaded_prefix(tasks@, all, k + 1);
        }
        match find_task(tasks, ids[k].as_str()) {
            Some(i) => {
                match n.checked_add(tasks[i].downloaded_bytes) {
                    Some(m) => {
                        n = m;
                    },
                    None => {
                        return None;
                    },
                }
            },
            None => {},
        }
        k = k + 1;
    }
    proof {
        assert(all.take(ids.len() as int) =~= all);
    }
    Some(n)
}

impl DownloadEngine {
    /// Reports of every batch, in the ledger's order.
    pub fn snapshot_batches(&self) -> (v: Vec<BatchSnapshot>)
        ensures
            v@.len() == self.batches@.len(),
            forall|k: int| 0 <= k < v@.len() ==> is_snapshot_of(#[trigger] v@[k], self.batches@[k]),
    {
        let mut v: Vec<BatchSnapshot> = Vec::new();
        let mut k: usize = 0;
        while k < self.batches.len()
            invariant
                k <= self.batches@.len(),
                v@.len() == k,
                forall|m: int| 0 <= m < k ==> is_snapshot_of(#[trigger] v@[m], self.batches@[m]),
            decreases self.batches.len() - k,
        {
            let b = &self.batches[k];
            v.push(BatchSnapshot {
                id: b.id.clone(),
                name: b.name.clone(),
                status: task_status_string(&b.status),
                total_bytes: b.total_bytes,
                downloaded_bytes: b.downloaded_bytes,
                error: copy_opt_string(&b.error),
                local_path: b.local_path.clone(),
                cloud_env: b.cloud_env.clone(),
                drive_id: b.drive_id.clone(),
                home_account_id: b.home_account_id.clone(),
            });
            k = k + 1;
        }
        v
    }

    /// The account that owns a batch, if the batch is tracked.
    pub fn batch_home_account_id(&self, batch_id: &str) -> (r: Option<String>)
        ensures
            match self.batch(batch_id@) {
                Some(b) => r == Some(b.home_account_id),
                None => r is None,
            },
    {
        match find_batch(&self.batches, batch_id) {
            Some(i) => Some(self.batches[i].home_account_id.clone()),
            None => None,
        }
    }

    /// Whether the byte count of a batch's children fits its counter (the
    /// condition of `update_batch_status` and `finish_child`); an unknown
    /// batch has nothing to count.
    pub fn batch_bytes_fit_for(&self, batch_id: &str) -> (r: bool)
        ensures
            r == (self.batch(batch_id@) matches Some(b) ==> batch_bytes_fit(self.tasks@, b)),
    {
        match find_batch(&self.batches, batch_id) {
            Some(i) => children_bytes_checked(&self.tasks, &self.batches[i].task_ids).is_some(),
            None => true,
        }
    }

    /// Counts `len` more bytes written into chunk `chunk_index` of task
    /// `task_id`: the chunk's counter saturates, the task's and its batch's
    /// counters wrap as the atomic counters they stand for do. `false` for
    /// an unknown task, which changes nothing.
    pub fn record_chunk_progress(&mut self, task_id: &str, chunk_index: usize, len: u64) -> (found: bool)
        requires
            old(self).wf(),
        ensures
            final(self).wf(),
            final(self).state_dir == old(self).state_dir,
            match first_index(task_ids(old(self).tasks@), task_id@) {
                None => !found && *final(self) == *old(self),
                Some(j) => {
                    let t = old(self).tasks@[j];
                    let nt = final(self).tasks@[j];
                    &&& found
                    &&& final(self).tasks@ == old(self).tasks@.update(
                        j,
                        DownloadTask { downloaded_bytes: nt.downloaded_bytes, chunks: nt.chunks, ..t },
                    )
                    &&& nt.downloaded_bytes == (t.downloaded_bytes + len) % 0x1_0000_0000_0000_0000
                    &&& nt.chunks@ == if chunk_index < t.chunks@.len() {
                        t.chunks@.update(
                            chunk_index as int,
                            ChunkState { downloaded: crate::download::saturating(t.chunks@[chunk_index as int].downloaded + len), ..t.chunks@[chunk_index as int] },
                        )
                    } else {
                        t.chunks@
                    }
                    &&& match first_index(batch_ids(old(self).batches@), t.batch_id@) {
                        None => final(self).batches == old(self).batches,
                        Some(i) => {
                            let b = old(self).batches@[i];
                            final(self).batches@ == old(self).batches@.update(
                                i,
                                DownloadBatch { downloaded_bytes: ((b.downloaded_bytes + len) % 0x1_0000_0000_0000_0000) as u64, ..b },
                            )
                        },
                    }
                },
            },
    {
        let j = match find_task(&self.tasks, task_id) {
            Some(j) => j,
            None => {
                return false;
            },
        };
        let ghost old_tasks = self.tasks@;
        let mut t = self.tasks.remove(j);
        if chunk_index < t.chunks.len() {
            let c = t.chunks[chunk_index];
            let nc = ChunkState { start: c.start, end: c.end, downloaded: c.downloaded.saturating_add(len) };
            t.chunks.set(chunk_index, nc);
        }
        t.downloaded_bytes = t.downloaded_bytes.wrapping_add(len);
        let batch_index = find_batch(&self.batches, t.batch_id.as_str());
        self.tasks.insert(j, t);
        proof {
            assert(self.tasks@ =~= old_tasks.update(
                j as int,
                DownloadTask { downloaded_bytes: self.tasks@[j as int].downloaded_bytes, chunks: self.tasks@[j as int].chunks, ..old_tasks[j as int] },
            ));
            assert(task_ids(self.tasks@) =~= task_ids(old_tasks));
        }
        match batch_index {
            Some(i) => {
                let ghost old_batches = self.batches@;
                let mut b = self.batches.remove(i);
                b.downloaded_bytes = b.downloaded_bytes.wrapping_add(len);
                self.batches.insert(i, b);
                proof {
                    assert(self.batches@ =~= old_batches.update(
                        i as int,
                        DownloadBatch { downloaded_bytes: ((old_batches[i as int].downloaded_bytes + len) % 0x1_0000_0000_0000_0000) as u64, ..old_batches[i as int] },
                    ));
                    assert(batch_ids(self.batches@) =~= batch_ids(old_batches));
                }
            },
            None => {},
        }
        true
    }
}

// ── Persisted forms and restoring ───────────────────────────────────────

/// The RFC 3339 text a time is persisted as; empty where chrono cannot
/// write the time.
pub open spec fn time_text(secs: i64) -> Seq<char> {
    match rfc3339_text(secs) {
        Some(t) => t,
        None => Seq::empty(),
    }
}

/// The RFC 3339 text of a time (see `time_text`).
fn time_string(secs: i64) -> (s: String)
    ensures
        s@ == time_text(secs),
{
    match format_rfc3339(secs) {
        Some(t) => t,
        None => {
            let e = String::new();
            proof {
                assert(e@ =~= Seq::<char>::empty());
            }
            e
        },
    }
}

/// `p` is the persisted snapshot of `t`: the same fields, the status by its
/// name, the URL time as RFC 3339 text, the chunks as they stand.
pub open spec fn is_persisted_task(p: PersistedTask, t: DownloadTask) -> bool {
    &&& p.id == t.id
    &&& p.file_name == t.file_name
    &&& p.home_account_id == t.home_account_id
    &&& p.drive_id == t.drive_id
    &&& p.item_id == t.item_id
    &&& p.local_path == t.local_path
    &&& p.total_bytes == t.total_bytes
    &&& p.status@ == status_name(t.status@)
    &&& p.cloud_env == t.cloud_env
    &&& p.url_obtained_at@ == time_text(t.url_obtained_at)
    &&& p.chunks@ == t.chunks@.map_values(|c: ChunkState| persisted_of(c))
    &&& p.batch_id == t.batch_id
    &&& p.etag == t.etag
}

/// The persisted snapshot of a task (see `is_persisted_task`).
pub fn persisted_task(t: &DownloadTask) -> (p: PersistedTask)
    ensures
        is_persisted_task(p, *t),
{
    let mut chunks: Vec<PersistedChunk> = Vec::new();
    let mut k: usize = 0;
    while k < t.chunks.len()
        invariant
            k <= t.chunks@.len(),
            chunks@ == t.chunks@.take(k as int).map_values(|c: ChunkState| persisted_of(c)),
        decreases t.chunks.len() - k,
    {
        let c = t.chunks[k];
        chunks.push(PersistedChunk { start: c.start, end: c.end, downloaded: c.downloaded });
        proof {
            assert(chunks@ =~= t.chunks@.take(k + 1).map_values(|c: ChunkState| persisted_of(c)));
        }
        k = k + 1;
    }
    proof {
        assert(t.chunks@.take(t.chunks@.len() as int) =~= t.chunks@);
    }
    PersistedTask {
        id: t.id.clone(),
        file_name: t.file_name.clone(),
        home_account_id: t.home_account_id.clone(),
        drive_id: t.drive_id.clone(),
        item_id: t.item_id.clone(),
        local_path: t.local_path.clone(),
        total_bytes: t.total_bytes,
        status: task_status_string(&t.status),
        cloud_env: t.cloud_env.clone(),
        url_obtained_at: time_string(t.url_obtained_at),
        chunks,
        batch_id: t.batch_id.clone(),
        etag: copy_opt_string(&t.etag),
    }
}

/// `p` is the persisted form of batch `b`.
pub open spec fn is_persisted_batch(p: PersistedBatch, b: DownloadBatch) -> bool {
    &&& p.id == b.id
    &&& p.name == b.name
    &&& p.task_ids@ == b.task_ids@
    &&& p.total_bytes == b.total_bytes
    &&& p.home_account_id == b.home_account_id
    &&& p.local_path == b.local_path
    &&& p.cloud_env == b.cloud_env
    &&& p.drive_id == b.drive_id
    &&& p.url_obtained_at@ == time_text(b.url_obtained_at)
}

/// The bytes the children `ids` have on disk, counted by their chunks; a
/// gone task counts none.
pub open spec fn children_chunk_bytes(tasks: Seq<DownloadTask>, ids: Seq<Seq<char>>) -> nat
    decreases ids.len(),
{
    if ids.len() == 0 {
        0
    } else {
        children_chunk_bytes(tasks, ids.drop_last()) + match first_index(task_ids(tasks), ids.last()) {
            Some(i) => downloaded_sum(tasks[i].chunks@),
            None => 0,
        }
    }
}

proof fn lemma_children_chunk_bytes_prefix(tasks: Seq<DownloadTask>, ids: Seq<Seq<char>>, k: int)
    requires
        0 <= k <= ids.len(),
    ensures
        children_chunk_bytes(tasks, ids.take(k)) <= children_chunk_bytes(tasks, ids),
    decreases ids.len() - k,
{
    if k < ids.len() {
        lemma_children_chunk_bytes_prefix(tasks, ids, k + 1);
        assert(ids.take(k + 1).drop_last() =~= ids.take(k));
    } else {
        assert(ids.take(k) =~= ids);
    }
}

/// `b` is the batch restored from `p` over the tracked `tasks` at `now`:
/// its progress and state recomputed from its children, no error, its URLs
/// counted as obtained now.
pub open spec fn is_restored_batch(b: DownloadBatch, p: PersistedBatch, tasks: Seq<DownloadTask>, now: i64) -> bool {
    &&& b.id == p.id
    &&& b.name == p.name
    &&& b.task_ids@ == p.task_ids@
    &&& b.total_bytes == p.total_bytes
    &&& b.home_account_id == p.home_account_id
    &&& b.downloaded_bytes == children_chunk_bytes(tasks, id_texts(p.task_ids@))
    &&& b.status@ == batch_status(child_statuses(tasks, id_texts(p.task_ids@)))
    &&& b.error is None
    &&& b.local_path == p.local_path
    &&& b.cloud_env == p.cloud_env
    &&& b.drive_id == p.drive_id
    &&& b.url_obtained_at == now
}

impl DownloadEngine {
    /// The persisted form of a batch, if it is tracked.
    pub fn persisted_batch(&self, batch_id: &str) -> (r: Option<PersistedBatch>)
        ensures
            match self.batch(batch_id@) {
                Some(b) => r matches Some(p) && is_persisted_batch(p, b),
                None => r is None,
            },
    {
        match find_batch(&self.batches, batch_id) {
            Some(i) => {
                let b = &self.batches[i];
                Some(PersistedBatch {
                    id: b.id.clone(),
                    name: b.name.clone(),
                    task_ids: copy_ids(&b.task_ids),
                    total_bytes: b.total_bytes,
                    home_account_id: b.home_account_id.clone(),
                    local_path: b.local_path.clone(),
                    cloud_env: b.cloud_env.clone(),
                    drive_id: b.drive_id.clone(),
                    url_obtained_at: time_string(b.url_obtained_at),
                })
            },
            None => None,
        }
    }

    /// An engine over `state_dir` tracking the persisted tasks (see
    /// `restore_task`), each under its id, a later snapshot replacing an
    /// earlier one with the same id; no batches yet.
    pub fn restore_tasks(state_dir: String, persisted: Vec<PersistedTask>, now: i64) -> (e: DownloadEngine)
        requires
            forall|k: int| 0 <= k < persisted@.len() ==> persisted_downloaded_sum(#[trigger] persisted@[k].chunks@) <= u64::MAX,
            now >= i64::MIN + 7200,
        ensures
            e.wf(),
            e.state_dir == state_dir,
            e.batches@.len() == 0,
            forall|k: int| 0 <= k < persisted@.len() && (forall|k2: int| k < k2 < persisted@.len() ==> persisted@[k2].id@ != persisted@[k].id@)
                ==> (e.task(#[trigger] persisted@[k].id@) matches Some(t) && is_restored_task(t, persisted@[k], now)),
            forall|x: Seq<char>| (forall|k: int| 0 <= k < persisted@.len() ==> persisted@[k].id@ != x) ==> #[trigger] e.task(x) is None,
    {
        let tasks_dir = crate::download::join_path(state_dir.as_str(), "tasks");
        let mut e = DownloadEngine { tasks: Vec::new(), batches: Vec::new(), state_dir };
        let ghost all = persisted@;
        let mut src = persisted;
        let ghost mut n: int = 0;
        proof {
            assert(all.skip(0) =~= all);
        }
        while src.len() > 0
            invariant
                0 <= n <= all.len(),
                src@ == all.skip(n),
                forall|k: int| 0 <= k < all.len() ==> persisted_downloaded_sum(#[trigger] all[k].chunks@) <= u64::MAX,
                now >= i64::MIN + 7200,
                e.wf(),
                e.state_dir == state_dir,
                e.batches@.len() == 0,
                forall|k: int| 0 <= k < n && (forall|k2: int| k < k2 < n ==> all[k2].id@ != all[k].id@)
                    ==> (e.task(#[trigger] all[k].id@) matches Some(t) && is_restored_task(t, all[k], now)),
                forall|x: Seq<char>| (forall|k: int| 0 <= k < n ==> all[k].id@ != x) ==> #[trigger] e.task(x) is None,
            decreases src.len(),
        {
            let p = src.remove(0);
            proof {
                assert(p == all[n]);
                assert(src@ =~= all.skip(n + 1));
            }
            let ghost pv = p;
            let t = restore_task(p, tasks_dir.as_str(), now);
            let ghost pre = e;
            e.put_task(t);
            proof {
                assert forall|k: int| 0 <= k < n + 1 && (forall|k2: int| k < k2 < n + 1 ==> all[k2].id@ != all[k].id@)
                    implies (e.task(#[trigger] all[k].id@) matches Some(t) && is_restored_task(t, all[k], now)) by {
                    if k < n {
                        assert(all[n].id@ != all[k].id@);
                        assert(pre.task(all[k].id@) matches Some(t) && is_restored_task(t, all[k], now));
                    }
                }
                assert forall|x: Seq<char>| (forall|k: int| 0 <= k < n + 1 ==> all[k].id@ != x) implies #[trigger] e.task(x) is None by {
                    assert(all[n].id@ != x);
                    assert(pre.task(x) is None);
                }
                n = n + 1;
            }
        }
        e
    }

    /// Tracks the batch persisted as `p`, restored over the tracked tasks
    /// (see `is_restored_batch`); a batch with the same id is replaced.
    pub fn restore_batch(&mut self, p: PersistedBatch, now: i64)
        requires
            old(self).wf(),
            children_chunk_bytes(old(self).tasks@, id_texts(p.task_ids@)) <= u64::MAX,
        ensures
            final(self).wf(),
            final(self).tasks == old(self).tasks,
            final(self).state_dir == old(self).state_dir,
            final(self).batch(p.id@) matches Some(b) && is_restored_batch(b, p, old(self).tasks@, now),
            forall|x: Seq<char>| x != p.id@ ==> #[trigger] final(self).batch(x) == old(self).batch(x),
    {
        let ghost all = id_texts(p.task_ids@);
        let mut downloaded: u64 = 0;
        let mut k: usize = 0;
        while k < p.task_ids.len()
            invariant
                k <= p.task_ids@.len(),
                all == id_texts(p.task_ids@),
                children_chunk_bytes(self.tasks@, all) <= u64::MAX,
                downloaded == children_chunk_bytes(self.tasks@, all.take(k as int)),
            decreases p.task_ids.len() - k,
        {
            proof {
                assert(all.take(k + 1).drop_last() =~= all.take(k as int));
                assert(all.take(k + 1).last() == p.task_ids@[k as int]@);
                lemma_children_chunk_bytes_prefix(self.tasks@, all, k + 1);
            }
            match find_task(&self.tasks, p.task_ids[k].as_str()) {
                Some(i) => {
                    let n = chunk_downloaded_sum(self.tasks[i].chunks.as_slice());
                    downloaded = downloaded + n;
                },
                None => {},
            }
            k = k + 1;
        }
        proof {
            assert(all.take(p.task_ids@.len() as int) =~= all);
        }
        let statuses = statuses_of_children(&self.tasks, &p.task_ids);
        let status = batch_status_from_statuses(statuses.as_slice());
        let b = DownloadBatch {
            id: p.id,
            name: p.name,
            task_ids: p.task_ids,
            total_bytes: p.total_bytes,
            home_account_id: p.home_account_id,
            downloaded_bytes: downloaded,
            status,
            error: None,
            local_path: p.local_path,
            cloud_env: p.cloud_env,
            drive_id: p.drive_id,
            url_obtained_at: now,
        };
        self.put_batch(b);
    }
}

impl DownloadEngine {
    /// Whether the chunk byte counts of the children `task_ids` together
    /// fit a `u64` (the condition of `restore_batch`).
    pub fn chunk_bytes_fit(&self, task_ids: &Vec<String>) -> (r: bool)
        ensures
            r == (children_chunk_bytes(self.tasks@, id_texts(task_ids@)) <= u64::MAX),
    {
        let ghost all = id_texts(task_ids@);
        let mut n: u64 = 0;
        let mut k: usize = 0;
        while k < task_ids.len()
            invariant
                k <= task_ids@.len(),
                all == id_texts(task_ids@),
                n == children_chunk_bytes(self.tasks@, all.take(k as int)),
            decreases task_ids.len() - k,
        {
            proof {
                assert(all.take(k + 1).drop_last() =~= all.take(k as int));
                assert(all.take(k + 1).last() == task_ids@[k as int]@);
                lemma_children_chunk_bytes_prefix(self.tasks@, all, k + 1);
            }
            match find_task(&self.tasks, task_ids[k].as_str()) {
                Some(i) => {
                    match chunk_sum_checked(self.tasks[i].chunks.as_slice()) {
                        Some(m) => match n.checked_add(m) {
                            Some(t) => {
                                n = t;
                            },
                            None => {
                                return false;
                            },
                        },
                        None => {
                            return false;
                        },
                    }
                },
                None => {},
            }
            k = k + 1;
        }
        proof {
            assert(all.take(task_ids@.len() as int) =~= all);
        }
        true
    }
}

/// The downloaded bytes of chunks, or `None` where they do not fit a `u64`.
fn chunk_sum_checked(chunks: &[ChunkState]) -> (r: Option<u64>)
    ensures
        match r {
            Some(n) => n == downloaded_sum(chunks@),
            None => downloaded_sum(chunks@) > u64::MAX,
        },
{
    let mut n: u64 = 0;
    let mut i: usize = 0;
    while i < chunks.len()
        invariant
            i <= chunks.len(),
            n == downloaded_sum(chunks@.take(i as int)),
        decreases chunks.len() - i,
    {
        proof {
            assert(chunks@.take(i + 1).drop_last() =~= chunks@.take(i as int));
            lemma_downloaded_sum_prefix_le(chunks@, i + 1);
        }
        match n.checked_add(chunks[i].downloaded) {
            Some(m) => {
                n = m;
            },
            None => {
                return None;
            },
        }
        i = i + 1;
    }
    proof {
        assert(chunks@.take(chunks@.len() as int) =~= chunks@);
    }
    Some(n)
}

proof fn lemma_downloaded_sum_prefix_le(chunks: Seq<ChunkState>, k: int)
    requires
        0 <= k <= chunks.len(),
    ensures
        downloaded_sum(chunks.take(k)) <= downloaded_sum(chunks),
    decreases chunks.len() - k,
{
    if k < chunks.len() {
        lemma_downloaded_sum_prefix_le(chunks, k + 1);
        assert(chunks.take(k + 1).drop_last() =~= chunks.take(k));
    } else {
        assert(chunks.take(k) =~= chunks);
    }
}

} // verus!
