//! Reading a drive file through the WebDAV gateway: which opens are
//! allowed (the gateway is read-only), how a listing is prepared, and the
//! read cursor of an open file, which prefetches large ranges from the
//! file's download address and serves reads from that buffer.

use vstd::prelude::*;
use crate::cache::CachedItem;
use crate::errors::AppError;
use crate::sessions::kept;
use crate::text::{chars_of, extend_str, string_of};
use crate::webdav_fs::{children_sorted, is_junk_file, is_junk_name, sort_children, FsErrorKind};

verus! {

/// Entries asked for per listing page.
pub const CHILDREN_PAGE_SIZE: u32 = 999;

/// The item fields a listing asks for.
pub const CHILDREN_SELECT: &'static str = "id,name,size,file,folder,lastModifiedDateTime,eTag,createdDateTime";

/// Bytes fetched at least per read miss (4 MiB), well above the WebDAV
/// server's own read size.
pub const PREFETCH_CHUNK: usize = 4194304;

/// The first page of a directory's children.
pub fn children_page_url(base: &str, drive: &str, dir_id: &str) -> (u: String)
    ensures
        u@ == base@ + "/drives/"@ + drive@ + "/items/"@ + dir_id@ + "/children?$top=999&$select="@
            + CHILDREN_SELECT@,
{
    let mut v = chars_of(base);
    extend_str(&mut v, "/drives/");
    extend_str(&mut v, drive);
    extend_str(&mut v, "/items/");
    extend_str(&mut v, dir_id);
    extend_str(&mut v, "/children?$top=999&$select=");
    extend_str(&mut v, CHILDREN_SELECT);
    string_of(v.as_slice())
}

/// Where a file's pre-authenticated download address is read.
pub fn download_url_lookup(base: &str, drive: &str, item: &str) -> (u: String)
    ensures
        u@ == base@ + "/drives/"@ + drive@ + "/items/"@ + item@
            + "?$select=id,@microsoft.graph.downloadUrl"@,
{
    let mut v = chars_of(base);
    extend_str(&mut v, "/drives/");
    extend_str(&mut v, drive);
    extend_str(&mut v, "/items/");
    extend_str(&mut v, item);
    extend_str(&mut v, "?$select=id,@microsoft.graph.downloadUrl");
    string_of(v.as_slice())
}

/// The download address an answer carries; one without it is an error.
pub fn download_url_of(url: Option<String>) -> (r: Result<String, AppError>)
    ensures
        match url {
            Some(u) => r == Ok::<String, AppError>(u),
            None => r matches Err(AppError::GraphApi { message, status_code }) && status_code == 0
                && message@ == "Graph did not return a download URL"@,
        },
{
    match url {
        Some(u) => Ok(u),
        None => Err(
            AppError::GraphApi {
                message: string_of(chars_of("Graph did not return a download URL").as_slice()),
                status_code: 0,
            },
        ),
    }
}

pub open spec fn junk_entry() -> spec_fn(CachedItem) -> bool {
    |i: CachedItem| is_junk_name(i.name@)
}

/// A directory listing as served: its junk files dropped, then folders
/// first and names in order (see `children_sorted`).
pub fn prepared_listing(items: Vec<CachedItem>) -> (out: Vec<CachedItem>)
    ensures
        out@.to_multiset() == kept(items@, junk_entry()).to_multiset(),
        children_sorted(out@),
{
    let ghost f = junk_entry();
    let ghost iv = items@;
    let mut src = items;
    let mut out: Vec<CachedItem> = Vec::new();
    let ghost mut n: int = 0;
    proof {
        assert(iv.take(0) =~= Seq::<CachedItem>::empty());
    }
    while src.len() > 0
        invariant
            0 <= n <= iv.len(),
            src@ == iv.skip(n),
            out@ == kept(iv.take(n), f),
            f == junk_entry(),
        decreases src.len(),
    {
        let it = src.remove(0);
        proof {
            assert(it == iv[n]);
            assert(src@ =~= iv.skip(n + 1));
            assert(iv.take(n + 1).drop_last() =~= iv.take(n));
        }
        if !is_junk_file(it.name.as_str()) {
            out.push(it);
        }
        proof {
            n = n + 1;
        }
    }
    proof {
        assert(iv.take(n) =~= iv);
    }
    sort_children(&mut out);
    out
}

/// The flags a WebDAV open asks for.
#[derive(Debug, Clone, Copy)]
pub struct OpenRequest {
    pub read: bool,
    pub write: bool,
    pub append: bool,
    pub truncate: bool,
    pub create: bool,
    pub create_new: bool,
}

/// Whether an open is allowed: a plain read, nothing that could write.
pub fn open_allowed(o: &OpenRequest) -> (b: bool)
    ensures
        b == (o.read && !o.write && !o.append && !o.truncate && !o.create && !o.create_new),
{
    o.read && !o.write && !o.append && !o.truncate && !o.create && !o.create_new
}

/// The failure of opening a path: a refused open, or a directory, is
/// forbidden.
pub fn open_failure(o: &OpenRequest, is_dir: bool) -> (r: Option<FsErrorKind>)
    ensures
        r == (if !(o.read && !o.write && !o.append && !o.truncate && !o.create && !o.create_new)
            || is_dir {
            Some(FsErrorKind::Forbidden)
        } else {
            None
        }),
{
    if !open_allowed(o) || is_dir {
        Some(FsErrorKind::Forbidden)
    } else {
        None
    }
}

/// The read state of an open file: its size, the read position, and where
/// the buffered range starts and how long it is.
#[derive(Debug, Clone, Copy)]
pub struct ReadCursor {
    pub size: u64,
    pub pos: u64,
    pub buf_start: u64,
    pub buf_len: usize,
}

/// What a read of `count` bytes takes next.
#[derive(Debug, Clone, Copy, PartialEq, Eq, Structural)]
pub enum ReadStep {
    /// Nothing to read: zero bytes asked for, or the end was reached.
    End,
    /// Fetch bytes `start..=end` of the file into the buffer first.
    Fill { start: u64, end: u64 },
    /// Serve from the buffer as it is.
    Serve,
}

/// A new cursor at the file's start with nothing buffered.
pub fn new_cursor(size: u64) -> (c: ReadCursor)
    ensures
        c == (ReadCursor { size, pos: 0, buf_start: 0, buf_len: 0 }),
{
    ReadCursor { size, pos: 0, buf_start: 0, buf_len: 0 }
}

/// Whether the buffer does not hold the read position.
pub open spec fn misses(c: ReadCursor) -> bool {
    c.pos < c.buf_start || c.pos - c.buf_start >= c.buf_len
}

/// How many bytes a fill fetches: at least the prefetch size, at most what
/// is left of the file.
pub open spec fn fill_len(c: ReadCursor, count: nat) -> int {
    let want = if count >= PREFETCH_CHUNK { count as int } else { PREFETCH_CHUNK as int };
    if want <= c.size - c.pos {
        want
    } else {
        c.size - c.pos
    }
}

/// What a read of `count` bytes takes next.
pub open spec fn read_step_spec(c: ReadCursor, count: nat) -> ReadStep {
    if count == 0 || c.pos >= c.size {
        ReadStep::End
    } else if misses(c) {
        ReadStep::Fill { start: c.pos, end: (c.pos + fill_len(c, count) - 1) as u64 }
    } else {
        ReadStep::Serve
    }
}

/// What a read of `count` bytes takes next (see `read_step_spec`).
pub fn read_step(c: &ReadCursor, count: usize) -> (s: ReadStep)
    ensures
        s == read_step_spec(*c, count as nat),
{
    if count == 0 || c.pos >= c.size {
        return ReadStep::End;
    }
    let missing = c.pos < c.buf_start || c.pos - c.buf_start >= c.buf_len as u64;
    if missing {
        let want: u64 = if count >= PREFETCH_CHUNK {
            count as u64
        } else {
            PREFETCH_CHUNK as u64
        };
        let left = c.size - c.pos;
        let len = if want <= left {
            want
        } else {
            left
        };
        ReadStep::Fill { start: c.pos, end: c.pos + len - 1 }
    } else {
        ReadStep::Serve
    }
}

/// The cursor once the fetched bytes (`body_len` of them) are the buffer.
pub fn after_fill(c: &ReadCursor, body_len: usize) -> (n: ReadCursor)
    ensures
        n == (ReadCursor { buf_start: c.pos, buf_len: body_len, ..*c }),
{
    ReadCursor { size: c.size, pos: c.pos, buf_start: c.pos, buf_len: body_len }
}

/// What serving a read from the buffer gives: the offset in the buffer, the
/// byte count (bounded by the request, the buffer and the file), and the
/// advanced cursor.
pub open spec fn served(c: ReadCursor, count: nat) -> (int, int) {
    let offset = c.pos - c.buf_start;
    let available = c.buf_len - offset;
    let a = if count <= available { count as int } else { available };
    (offset, if a <= c.size - c.pos { a } else { c.size - c.pos })
}

/// Serves a read from the buffer (see `served`); the buffer must hold the
/// read position or end right at it, as after a fill.
pub fn serve(c: &ReadCursor, count: usize) -> (r: (usize, usize, ReadCursor))
    requires
        c.pos < c.size,
        c.buf_start <= c.pos,
        c.pos - c.buf_start <= c.buf_len,
    ensures
        r.0 as int == served(*c, count as nat).0,
        r.1 as int == served(*c, count as nat).1,
        r.0 + r.1 <= c.buf_len,
        r.2 == (ReadCursor { pos: (c.pos + r.1) as u64, ..*c }),
        r.2.pos <= c.size,
{
    let offset = (c.pos - c.buf_start) as usize;
    let available = c.buf_len - offset;
    let a = if count <= available {
        count
    } else {
        available
    };
    let left = c.size - c.pos;
    let take = if (a as u64) <= left {
        a
    } else {
        left as usize
    };
    (offset, take, ReadCursor { size: c.size, pos: c.pos + take as u64, buf_start: c.buf_start, buf_len: c.buf_len })
}

/// A read that serves from the buffer finds the position inside it.
pub proof fn lemma_serve_is_in_buffer(c: ReadCursor, count: nat)
    requires
        read_step_spec(c, count) == ReadStep::Serve,
    ensures
        c.pos < c.size,
        c.buf_start <= c.pos,
        c.pos - c.buf_start < c.buf_len,
{
}

/// A fill asks for a non-empty range that starts at the read position and
/// stays inside the file.
pub proof fn lemma_fill_stays_in_file(c: ReadCursor, count: nat)
    requires
        read_step_spec(c, count) matches ReadStep::Fill { .. },
    ensures
        read_step_spec(c, count) matches ReadStep::Fill { start, end } && start == c.pos && start
            <= end < c.size,
{
}

/// Where a seek goes from.
#[derive(Debug, Clone, Copy)]
pub enum SeekOrigin {
    Start(u64),
    End(i64),
    Current(i64),
}

/// The position a seek asks for, as an integer (the start offset read as a
/// signed 64-bit number).
pub open spec fn seek_target(c: ReadCursor, from: SeekOrigin) -> int {
    match from {
        SeekOrigin::Start(n) => if n <= i64::MAX {
            n as int
        } else {
            n - 0x1_0000_0000_0000_0000
        },
        SeekOrigin::End(n) => c.size + n,
        SeekOrigin::Current(n) => c.pos + n,
    }
}

/// Moves the read position; a target before the file's start fails. The
/// file size and position are at most `i64::MAX`, and the target of an
/// `End` or `Current` seek fits in an `i64`.
pub fn seek(c: &ReadCursor, from: SeekOrigin) -> (r: Result<ReadCursor, FsErrorKind>)
    requires
        c.size <= i64::MAX,
        c.pos <= i64::MAX,
        from matches SeekOrigin::End(n) ==> i64::MIN <= c.size + n <= i64::MAX,
        from matches SeekOrigin::Current(n) ==> i64::MIN <= c.pos + n <= i64::MAX,
    ensures
        seek_target(*c, from) < 0 ==> r == Err::<ReadCursor, FsErrorKind>(FsErrorKind::GeneralFailure),
        seek_target(*c, from) >= 0 ==> r == Ok::<ReadCursor, FsErrorKind>(
            ReadCursor { pos: seek_target(*c, from) as u64, ..*c },
        ),
{
    let target: i64 = match from {
        SeekOrigin::Start(n) => if n <= i64::MAX as u64 {
            n as i64
        } else {
            -1
        },
        SeekOrigin::End(n) => c.size as i64 + n,
        SeekOrigin::Current(n) => c.pos as i64 + n,
    };
    if target < 0 {
        Err(FsErrorKind::GeneralFailure)
    } else {
        Ok(ReadCursor { size: c.size, pos: target as u64, buf_start: c.buf_start, buf_len: c.buf_len })
    }
}

} // verus!
