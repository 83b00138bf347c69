//! Uploads: choosing between a simple PUT and a chunked upload session,
//! the byte ranges of the session, retrying a chunk, and the registry of
//! running uploads.

use vstd::prelude::*;
use crate::errors::AppError;
use crate::text::{chars_of, extend_chars, extend_str, string_of, string_texts};
use crate::transcript::{decimal, decimal_chars};

verus! {

/// Files at or below this size (4 MiB) are uploaded with one PUT.
pub const SIMPLE_UPLOAD_LIMIT: u64 = 4194304;

/// Chunk size of upload sessions (320 KiB, as OneDrive requires).
pub const UPLOAD_CHUNK_SIZE: u64 = 327680;

/// Attempts per chunk.
pub const MAX_RETRIES: u32 = 3;

/// Status of an upload task.
#[derive(Debug, Clone, PartialEq)]
pub enum UploadStatus {
    Queued,
    Uploading,
    Completed,
    Failed(String),
    Cancelled,
}

/// Parameters for creating a new upload task.
#[derive(Debug, Clone)]
pub struct UploadParams {
    pub file_name: String,
    pub drive_id: String,
    pub parent_id: String,
    pub local_path: String,
    pub total_bytes: u64,
    pub base_url: String,
    pub token: String,
}

/// How a file is uploaded.
#[derive(Debug, Clone, Copy, PartialEq, Eq, Structural)]
pub enum UploadStrategy {
    /// One PUT of the whole content.
    Simple,
    /// An upload session fed in chunks.
    Session,
}

/// Files up to 4 MiB go in one PUT; larger ones through a session.
pub fn upload_strategy(total_bytes: u64) -> (s: UploadStrategy)
    ensures
        s == if total_bytes <= 4194304 { UploadStrategy::Simple } else { UploadStrategy::Session },
{
    if total_bytes <= SIMPLE_UPLOAD_LIMIT {
        UploadStrategy::Simple
    } else {
        UploadStrategy::Session
    }
}

/// `{base}/drives/{drive}/items/{parent}:/{name}:/{action}`.
pub open spec fn item_action_url(base: Seq<char>, drive: Seq<char>, parent: Seq<char>, name: Seq<char>, action: Seq<char>) -> Seq<char> {
    base + "/drives/"@ + drive + "/items/"@ + parent + ":/"@ + name + ":/"@ + action
}

fn item_action(base: &str, drive: &str, parent: &str, name: &str, action: &str) -> (u: String)
    ensures
        u@ == item_action_url(base@, drive@, parent@, name@, action@),
{
    let mut out: Vec<char> = Vec::new();
    extend_str(&mut out, base);
    extend_str(&mut out, "/drives/");
    extend_str(&mut out, drive);
    extend_str(&mut out, "/items/");
    extend_str(&mut out, parent);
    extend_str(&mut out, ":/");
    extend_str(&mut out, name);
    extend_str(&mut out, ":/");
    extend_str(&mut out, action);
    string_of(out.as_slice())
}

/// The URL a simple upload PUTs the content to.
pub fn simple_upload_url(base: &str, drive: &str, parent: &str, name: &str) -> (u: String)
    ensures
        u@ == item_action_url(base@, drive@, parent@, name@, "content"@),
{
    item_action(base, drive, parent, name, "content")
}

/// The URL that creates an upload session.
pub fn session_url(base: &str, drive: &str, parent: &str, name: &str) -> (u: String)
    ensures
        u@ == item_action_url(base@, drive@, parent@, name@, "createUploadSession"@),
{
    item_action(base, drive, parent, name, "createUploadSession")
}

/// One chunk of an upload session: the inclusive byte range `start..=end`.
#[derive(Debug, Clone, Copy, PartialEq, Eq, Structural)]
pub struct UploadChunk {
    pub start: u64,
    pub end: u64,
}

/// Chunk number `i` of a session upload of `total` bytes: it starts at
/// `i * 320 KiB` and ends one byte before the next one, or at the last byte.
pub open spec fn is_chunk_at(c: UploadChunk, i: int, total: nat) -> bool {
    &&& c.start == i * 327680
    &&& c.end + 1 == if (i + 1) * 327680 <= total {
        (i + 1) * 327680
    } else {
        total as int
    }
}

/// The chunks of a session upload of `total` bytes: consecutive 320 KiB
/// ranges from byte 0, the last one shorter where needed.
pub open spec fn is_upload_plan(chunks: Seq<UploadChunk>, total: nat) -> bool {
    &&& chunks.len() == (total + 327679) / 327680
    &&& forall|i: int| 0 <= i < chunks.len() ==> #[trigger] is_chunk_at(chunks[i], i, total)
}

/// The chunks of a session upload (see `is_upload_plan`).
pub fn upload_chunks(total_bytes: u64) -> (chunks: Vec<UploadChunk>)
    ensures
        is_upload_plan(chunks@, total_bytes as nat),
{
    let mut chunks: Vec<UploadChunk> = Vec::new();
    let mut offset: u64 = 0;
    let mut i: u64 = 0;
    while offset < total_bytes
        invariant
            offset <= total_bytes,
            offset == i * 327680 || (offset == total_bytes && i * 327680 >= total_bytes),
            offset < total_bytes ==> offset == i * 327680,
            chunks@.len() == i,
            i == (offset + 327679) / 327680,
            forall|k: int| 0 <= k < i ==> #[trigger] is_chunk_at(chunks@[k], k, total_bytes as nat),
        decreases total_bytes - offset,
    {
        let remaining = total_bytes - offset;
        let size = if UPLOAD_CHUNK_SIZE < remaining {
            UPLOAD_CHUNK_SIZE
        } else {
            remaining
        };
        let end = offset + size - 1;
        let ghost before = chunks@;
        chunks.push(UploadChunk { start: offset, end });
        proof {
            assert((i + 1) * 327680 == i * 327680 + 327680) by (nonlinear_arith);
            assert(offset == i * 327680);
            assert forall|k: int| 0 <= k < i + 1 implies #[trigger] is_chunk_at(chunks@[k], k, total_bytes as nat) by {
                if k < i {
                    assert(chunks@[k] == before[k]);
                } else {
                    assert(k == i);
                    assert(chunks@[k] == UploadChunk { start: offset, end });
                    assert(chunks@[k].start == k * 327680);
                    assert(chunks@[k].end + 1 == offset + size);
                    assert((k + 1) * 327680 == offset + 327680);
                    if size == 327680 {
                        assert((k + 1) * 327680 <= total_bytes);
                        assert(chunks@[k].end + 1 == (k + 1) * 327680);
                    } else {
                        assert(size < 327680);
                        assert(offset + size == total_bytes);
                        assert(!((k + 1) * 327680 <= total_bytes));
                    }
                }
            }
        }
        offset = offset + size;
        i = i + 1;
        proof {
            if offset < total_bytes {
                assert(offset == i * 327680);
            }
            assert(i == (offset + 327679) / 327680) by (nonlinear_arith)
                requires
                    offset == i * 327680 || (offset == total_bytes && (i - 1) * 327680 < total_bytes && total_bytes <= i * 327680),
                    i >= 1,
            ;
        }
    }
    chunks
}

/// `Content-Range` of a chunk: `bytes {start}-{end}/{total}`.
pub open spec fn content_range_of(start: u64, end: u64, total: u64) -> Seq<char> {
    "bytes "@ + decimal(start as nat) + "-"@ + decimal(end as nat) + "/"@ + decimal(total as nat)
}

/// The `Content-Range` header of a chunk (see `content_range_of`).
pub fn content_range(start: u64, end: u64, total: u64) -> (h: String)
    ensures
        h@ == content_range_of(start, end, total),
{
    let mut out: Vec<char> = Vec::new();
    extend_str(&mut out, "bytes ");
    extend_chars(&mut out, decimal_chars(start).as_slice());
    extend_str(&mut out, "-");
    extend_chars(&mut out, decimal_chars(end).as_slice());
    extend_str(&mut out, "/");
    extend_chars(&mut out, decimal_chars(total).as_slice());
    string_of(out.as_slice())
}

// ── Retrying a chunk ────────────────────────────────────────────────────

/// What one PUT of a chunk came back with.
#[derive(Debug, Clone)]
pub enum ChunkOutcome {
    /// A response with this status and body.
    Response { status_code: u16, body: String },
    /// The request failed before a response.
    RequestFailed(String),
}

/// What to do after a chunk attempt.
#[derive(Debug, Clone)]
pub enum ChunkAction {
    /// The chunk was accepted (200, 201 or 202): move to the next.
    Next,
    /// Wait this many seconds, then try the chunk again.
    RetryAfter(u64),
    /// Give up the upload with this message.
    Fail(String),
}

/// The error text of a failed chunk attempt.
pub open spec fn attempt_error(o: ChunkOutcome) -> Seq<char> {
    match o {
        ChunkOutcome::Response { status_code, body } => "Chunk upload failed with status "@ + decimal(
            status_code as nat,
        ) + ": "@ + body@,
        ChunkOutcome::RequestFailed(e) => "Chunk upload request failed: "@ + e@,
    }
}

/// The decision after attempt `attempt` (from 0) of a chunk: accept on
/// 200, 201 or 202; otherwise wait 1, 2, … seconds and retry, and after the
/// third failure give up with the last error.
pub open spec fn chunk_decision(attempt: nat, o: ChunkOutcome) -> ChunkActionView {
    match o {
        ChunkOutcome::Response { status_code, .. } if status_code == 200 || status_code == 201 || status_code == 202 => ChunkActionView::Next,
        _ => if attempt + 1 < 3 {
            ChunkActionView::RetryAfter(retry_wait_secs(attempt))
        } else {
            ChunkActionView::Fail("Chunk upload failed after 3 retries: "@ + attempt_error(o))
        },
    }
}

/// Seconds to wait before the retry that follows failed attempt `n`.
pub open spec fn retry_wait_secs(n: nat) -> u64 {
    if n == 0 { 1 } else if n == 1 { 2 } else { 4 }
}

/// `ChunkAction` with its message as a sequence.
pub enum ChunkActionView {
    Next,
    RetryAfter(u64),
    Fail(Seq<char>),
}

/// The view of a `ChunkAction`.
pub open spec fn chunk_action_view(a: ChunkAction) -> ChunkActionView {
    match a {
        ChunkAction::Next => ChunkActionView::Next,
        ChunkAction::RetryAfter(s) => ChunkActionView::RetryAfter(s),
        ChunkAction::Fail(m) => ChunkActionView::Fail(m@),
    }
}

fn attempt_error_text(o: &ChunkOutcome) -> (s: Vec<char>)
    ensures
        s@ == attempt_error(*o),
{
    let mut out: Vec<char> = Vec::new();
    match o {
        ChunkOutcome::Response { status_code, body } => {
            extend_str(&mut out, "Chunk upload failed with status ");
            extend_chars(&mut out, decimal_chars(*status_code as u64).as_slice());
            extend_str(&mut out, ": ");
            extend_str(&mut out, body.as_str());
        },
        ChunkOutcome::RequestFailed(e) => {
            extend_str(&mut out, "Chunk upload request failed: ");
            extend_str(&mut out, e.as_str());
        },
    }
    out
}

/// Decides what follows a chunk attempt (see `chunk_decision`).
pub fn next_chunk_action(attempt: u32, outcome: &ChunkOutcome) -> (a: ChunkAction)
    requires
        attempt < 3,
    ensures
        chunk_action_view(a) == chunk_decision(attempt as nat, *outcome),
{
    match outcome {
        ChunkOutcome::Response { status_code, .. } => {
            if *status_code == 200 || *status_code == 201 || *status_code == 202 {
                return ChunkAction::Next;
            }
        },
        ChunkOutcome::RequestFailed(_) => {},
    }
    if attempt + 1 < MAX_RETRIES {
        let secs: u64 = if attempt == 0 { 1 } else { 2 };
        ChunkAction::RetryAfter(secs)
    } else {
        let mut m: Vec<char> = Vec::new();
        extend_str(&mut m, "Chunk upload failed after 3 retries: ");
        extend_chars(&mut m, attempt_error_text(outcome).as_slice());
        ChunkAction::Fail(string_of(m.as_slice()))
    }
}

// ── Progress and outcome ────────────────────────────────────────────────

/// Status reported while a transfer runs: complete once every byte moved.
pub fn progress_status(current: u64, total: u64, running: &str) -> (s: String)
    ensures
        s@ == if current >= total { "completed"@ } else { running@ },
{
    if current >= total {
        "completed".to_owned()
    } else {
        running.to_owned()
    }
}

/// Where a folder is created under a parent: `{base}/drives/{drive}/items/{parent}/children`.
pub fn create_folder_url(base: &str, drive: &str, parent: &str) -> (u: String)
    ensures
        u@ == base@ + "/drives/"@ + drive@ + "/items/"@ + parent@ + "/children"@,
{
    let mut out: Vec<char> = Vec::new();
    extend_str(&mut out, base);
    extend_str(&mut out, "/drives/");
    extend_str(&mut out, drive);
    extend_str(&mut out, "/items/");
    extend_str(&mut out, parent);
    extend_str(&mut out, "/children");
    string_of(out.as_slice())
}

/// Bytes moved since the previous report (never negative).
pub fn transfer_speed(current: u64, last: u64) -> (b: u64)
    ensures
        b == if current >= last { current - last } else { 0 },
{
    current.saturating_sub(last)
}

/// The status and error an upload reports when its worker ends.
pub fn upload_outcome(result: &Result<(), String>) -> (r: (String, Option<String>))
    ensures
        match result {
            Ok(()) => r.0@ == "completed"@ && r.1 is None,
            Err(e) => r.0@ == "failed"@ && r.1 == Some(*e),
        },
{
    match result {
        Ok(()) => ("completed".to_owned(), None),
        Err(e) => ("failed".to_owned(), Some(e.clone())),
    }
}

// ── The registry of uploads ─────────────────────────────────────────────

/// A running upload.
#[derive(Debug, Clone)]
pub struct UploadTask {
    pub id: String,
    pub file_name: String,
    pub drive_id: String,
    pub parent_id: String,
    pub local_path: String,
    pub total_bytes: u64,
    pub status: UploadStatus,
}

/// The uploads the engine knows, in creation order.
pub struct UploadEngine {
    pub tasks: Vec<UploadTask>,
}

pub open spec fn ids_of(tasks: Seq<UploadTask>) -> Seq<Seq<char>> {
    tasks.map_values(|t: UploadTask| t.id@)
}

fn find_task(tasks: &Vec<UploadTask>, id: &str) -> (r: Option<usize>)
    ensures
        match r {
            Some(i) => i < tasks@.len() && tasks@[i as int].id@ == id@,
            None => forall|j: int| 0 <= j < tasks@.len() ==> #[trigger] tasks@[j].id@ != id@,
        },
{
    let key = id.to_owned();
    let mut i: usize = 0;
    while i < tasks.len()
        invariant
            i <= tasks@.len(),
            key@ == id@,
            forall|j: int| 0 <= j < i ==> #[trigger] tasks@[j].id@ != id@,
        decreases tasks.len() - i,
    {
        if tasks[i].id == key {
            return Some(i);
        }
        i = i + 1;
    }
    None
}

impl UploadEngine {
    /// No uploads.
    pub fn new() -> (r: UploadEngine)
        ensures
            r.tasks@.len() == 0,
    {
        UploadEngine { tasks: Vec::new() }
    }

    /// Starts tracking a new upload, running, under a fresh random id, which
    /// is returned (an upload already tracked under that id is replaced).
    pub fn create_task(&mut self, params: &UploadParams) -> (id: String)
        ensures
            final(self).tasks@.len() >= 1,
            final(self).tasks@.last().id == id,
            final(self).tasks@.last().file_name == params.file_name,
            final(self).tasks@.last().drive_id == params.drive_id,
            final(self).tasks@.last().parent_id == params.parent_id,
            final(self).tasks@.last().local_path == params.local_path,
            final(self).tasks@.last().total_bytes == params.total_bytes,
            final(self).tasks@.last().status == UploadStatus::Uploading,
            ({
                let rest = final(self).tasks@.drop_last();
                ||| (forall|j: int| 0 <= j < old(self).tasks@.len() ==> #[trigger] old(self).tasks@[j].id@ != id@) && rest == old(self).tasks@
                ||| exists|i: int| 0 <= i < old(self).tasks@.len() && old(self).tasks@[i].id@ == id@ && rest == old(self).tasks@.remove(i)
            }),
    {
        let id = crate::engine::new_id();
        match find_task(&self.tasks, id.as_str()) {
            Some(i) => {
                self.tasks.remove(i);
            },
            None => {},
        }
        let ghost before = self.tasks@;
        self.tasks.push(UploadTask {
            id: id.clone(),
            file_name: params.file_name.clone(),
            drive_id: params.drive_id.clone(),
            parent_id: params.parent_id.clone(),
            local_path: params.local_path.clone(),
            total_bytes: params.total_bytes,
            status: UploadStatus::Uploading,
        });
        proof {
            assert(self.tasks@.drop_last() =~= before);
        }
        id
    }

    /// Cancels and forgets an upload; `Task not found` for an unknown id.
    pub fn cancel_task(&mut self, task_id: &str) -> (r: Result<(), AppError>)
        ensures
            match r {
                Ok(()) => exists|i: int|
                    0 <= i < old(self).tasks@.len() && old(self).tasks@[i].id@ == task_id@
                        && final(self).tasks@ == old(self).tasks@.remove(i),
                Err(e) => {
                    &&& *final(self) == *old(self)
                    &&& forall|j: int|
                        0 <= j < old(self).tasks@.len() ==> #[trigger] old(self).tasks@[j].id@ != task_id@
                    &&& e matches AppError::Transfer { message, task_id: t }
                    &&& message@ == "Task not found"@
                    &&& t@ == task_id@
                },
            },
    {
        match find_task(&self.tasks, task_id) {
            Some(i) => {
                self.tasks.remove(i);
                Ok(())
            },
            None => Err(AppError::Transfer { message: "Task not found".to_owned(), task_id: task_id.to_owned() }),
        }
    }

    /// The status of an upload, if known.
    pub fn get_task_status(&self, task_id: &str) -> (r: Option<&UploadStatus>)
        ensures
            match r {
                Some(s) => exists|i: int| 0 <= i < self.tasks@.len() && self.tasks@[i].id@ == task_id@ && *s == self.tasks@[i].status,
                None => forall|j: int| 0 <= j < self.tasks@.len() ==> #[trigger] self.tasks@[j].id@ != task_id@,
            },
    {
        match find_task(&self.tasks, task_id) {
            Some(i) => Some(&self.tasks[i].status),
            None => None,
        }
    }

    /// The ids of all known uploads.
    pub fn task_ids(&self) -> (ids: Vec<String>)
        ensures
            string_texts(ids@) == ids_of(self.tasks@),
    {
        let mut ids: Vec<String> = Vec::new();
        let mut i: usize = 0;
        while i < self.tasks.len()
            invariant
                i <= self.tasks@.len(),
                ids@.len() == i,
                string_texts(ids@) == ids_of(self.tasks@).take(i as int),
            decreases self.tasks.len() - i,
        {
            let ghost before = ids@;
            ids.push(self.tasks[i].id.clone());
            proof {
                assert(ids@ == before.push(self.tasks@[i as int].id));
                assert(ids_of(self.tasks@)[i as int] == self.tasks@[i as int].id@);
                assert forall|k: int| 0 <= k < i + 1 implies #[trigger] string_texts(ids@)[k]
                    == ids_of(self.tasks@).take(i + 1)[k] by {
                    if k < i {
                        assert(ids@[k] == before[k]);
                        assert(string_texts(before)[k] == ids_of(self.tasks@).take(i as int)[k]);
                    }
                }
                assert(string_texts(ids@) =~= ids_of(self.tasks@).take(i + 1));
            }
            i = i + 1;
        }
        proof {
            assert(ids_of(self.tasks@).take(self.tasks@.len() as int) =~= ids_of(self.tasks@));
        }
        ids
    }
}

} // verus!
