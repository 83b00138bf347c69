//! The one-shot loopback channel through which the in-app player hands a
//! finished meeting recording back: how a request head is found in the
//! received bytes, what each request is answered, and the response heads.
//! The sockets and the file are the caller's.

use vstd::prelude::*;
use crate::text::{
    chars_eq_str, chars_of, eq_ignore_ascii_case, extend_chars, extend_str, find_char,
    find_chars, first_index_of, first_occurrence, has_prefix, is_whitespace, is_ws,
    slice_chars, split_char, split_chars, string_of, trim, trim_chars,
};
use crate::transcript::{decimal, decimal_chars};
use crate::updater::{parse_u64, parsed_u64};

verus! {

/// Upper bound for a request head, in bytes.
pub const MAX_HEAD_BYTES: usize = 32768;

// ── Finding the head ────────────────────────────────────────────────────

/// Whether the four bytes at `i` are CR LF CR LF.
pub open spec fn blank_line_at(buf: Seq<u8>, i: int) -> bool {
    &&& 0 <= i
    &&& i + 4 <= buf.len()
    &&& buf[i] == 13u8
    &&& buf[i + 1] == 10u8
    &&& buf[i + 2] == 13u8
    &&& buf[i + 3] == 10u8
}

/// Position of the first CR LF CR LF, which ends a request head.
pub fn find_double_crlf(buf: &[u8]) -> (r: Option<usize>)
    ensures
        match r {
            Some(i) => blank_line_at(buf@, i as int) && forall|j: int| 0 <= j < i ==> !#[trigger] blank_line_at(buf@, j),
            None => forall|j: int| !#[trigger] blank_line_at(buf@, j),
        },
{
    if buf.len() < 4 {
        return None;
    }
    let mut i: usize = 0;
    while i <= buf.len() - 4
        invariant
            buf.len() >= 4,
            i <= buf.len() - 3,
            forall|j: int| 0 <= j < i ==> !#[trigger] blank_line_at(buf@, j),
        decreases buf.len() - i,
    {
        if buf[i] == 13u8 && buf[i + 1] == 10u8 && buf[i + 2] == 13u8 && buf[i + 3] == 10u8 {
            return Some(i);
        }
        i = i + 1;
    }
    None
}

/// The head (before the blank line) and the body bytes already received
/// after it, once the blank line has arrived.
pub fn split_head(buf: &[u8]) -> (r: Option<(Vec<u8>, Vec<u8>)>)
    ensures
        match r {
            Some((head, rest)) => exists|i: int|
                blank_line_at(buf@, i) && (forall|j: int| 0 <= j < i ==> !#[trigger] blank_line_at(buf@, j))
                    && head@ == buf@.subrange(0, i) && rest@ == buf@.subrange(i + 4, buf@.len() as int),
            None => forall|j: int| !#[trigger] blank_line_at(buf@, j),
        },
{
    match find_double_crlf(buf) {
        Some(i) => {
            let head = copy_range(buf, 0, i);
            let rest = copy_range(buf, i + 4, buf.len());
            Some((head, rest))
        },
        None => None,
    }
}

/// A copy of `v[lo..hi]`.
fn copy_range(v: &[u8], lo: usize, hi: usize) -> (out: Vec<u8>)
    requires
        lo <= hi <= v.len(),
    ensures
        out@ == v@.subrange(lo as int, hi as int),
{
    let mut out: Vec<u8> = Vec::new();
    let mut i = lo;
    while i < hi
        invariant
            lo <= i <= hi,
            hi <= v.len(),
            out@ == v@.subrange(lo as int, i as int),
        decreases hi - i,
    {
        out.push(v[i]);
        proof {
            assert(v@.subrange(lo as int, i as int).push(v@[i as int]) =~= v@.subrange(lo as int, i + 1));
        }
        i = i + 1;
    }
    out
}

// ── Reading the head ────────────────────────────────────────────────────

/// The words of `s` as `str::split_whitespace` gives them, and the word
/// still open at its end.
pub open spec fn word_state(s: Seq<char>) -> (Seq<Seq<char>>, Seq<char>)
    decreases s.len(),
{
    if s.len() == 0 {
        (Seq::empty(), Seq::empty())
    } else {
        let (done, cur) = word_state(s.drop_last());
        if is_ws(s.last()) {
            if cur.len() > 0 {
                (done.push(cur), Seq::empty())
            } else {
                (done, Seq::empty())
            }
        } else {
            (done, cur.push(s.last()))
        }
    }
}

/// `str::split_whitespace`: the maximal runs of non-white-space characters.
pub open spec fn words(s: Seq<char>) -> Seq<Seq<char>> {
    let (done, cur) = word_state(s);
    if cur.len() > 0 {
        done.push(cur)
    } else {
        done
    }
}

/// The words of `s` (see `words`).
pub(crate) fn split_words(s: &[char]) -> (out: Vec<Vec<char>>)
    ensures
        out.deep_view() == words(s@),
{
    let mut done: Vec<Vec<char>> = Vec::new();
    let mut cur: Vec<char> = Vec::new();
    let mut i: usize = 0;
    proof {
        assert(s@.take(0) =~= Seq::<char>::empty());
        assert(done.deep_view() =~= Seq::<Seq<char>>::empty());
    }
    while i < s.len()
        invariant
            i <= s.len(),
            (done.deep_view(), cur@) == word_state(s@.take(i as int)),
        decreases s.len() - i,
    {
        let c = s[i];
        proof {
            assert(s@.take(i + 1).drop_last() =~= s@.take(i as int));
            assert(s@.take(i + 1).last() == c);
        }
        if is_whitespace(c) {
            if cur.len() > 0 {
                let ghost before = done.deep_view();
                let w = cur;
                proof {
                    assert(w.deep_view() =~= w@);
                }
                done.push(w);
                proof {
                    assert(done.deep_view() =~= before.push(w@));
                }
                cur = Vec::new();
            } else {
                cur = Vec::new();
            }
        } else {
            cur.push(c);
        }
        i = i + 1;
    }
    proof {
        assert(s@.take(s.len() as int) =~= s@);
    }
    if cur.len() > 0 {
        let ghost before = done.deep_view();
        proof {
            assert(cur.deep_view() =~= cur@);
        }
        let ghost cv = cur@;
        done.push(cur);
        proof {
            assert(done.deep_view() =~= before.push(cv));
        }
    }
    done
}

/// Word `k` of `s`, or empty where there is none.
pub open spec fn word_or_empty(s: Seq<char>, k: int) -> Seq<char> {
    if 0 <= k < words(s).len() {
        words(s)[k]
    } else {
        Seq::empty()
    }
}

/// One line as `str::lines` yields it: a line ended by a newline loses
/// that newline and a carriage return before it.
pub open spec fn strip_cr(l: Seq<char>) -> Seq<char> {
    if l.len() > 0 && l.last() == '\r' {
        l.drop_last()
    } else {
        l
    }
}

/// `str::lines`: the newline-separated lines, each ended line without its
/// `\r`, and no empty line after a final newline.
pub open spec fn lines_of(s: Seq<char>) -> Seq<Seq<char>> {
    let p = split_char(s, '\n');
    let ended = p.take(p.len() - 1).map_values(|l: Seq<char>| strip_cr(l));
    if p.last().len() > 0 {
        ended.push(p.last())
    } else {
        ended
    }
}

/// The `Content-Length` a header line gives, if it is one: a name that is
/// `content-length` up to ASCII case and white space around it, then `:`,
/// then a decimal `u64` (white space around it allowed).
pub open spec fn content_length_of_line(l: Seq<char>) -> Option<u64> {
    match first_index_of(l, ':') {
        None => None,
        Some(i) => if eq_ignore_ascii_case(trim(l.subrange(0, i)), "content-length"@) {
            parsed_u64(trim(l.subrange(i + 1, l.len() as int)))
        } else {
            None
        },
    }
}

/// The first usable `Content-Length` among header lines.
pub open spec fn content_length_in(lines: Seq<Seq<char>>) -> Option<u64>
    decreases lines.len(),
{
    if lines.len() == 0 {
        None
    } else {
        match content_length_in(lines.drop_last()) {
            Some(n) => Some(n),
            None => content_length_of_line(lines.last()),
        }
    }
}

/// The value of query parameter `name` in a request target: the part after
/// the first `?` split at `&`, the first piece whose text before its first
/// `=` is `name`, what follows that `=`.
pub open spec fn query_param(target: Seq<char>, name: Seq<char>) -> Option<Seq<char>> {
    match first_index_of(target, '?') {
        None => None,
        Some(q) => param_in(split_char(target.subrange(q + 1, target.len() as int), '&'), name),
    }
}

/// The value of the first `name=value` pair among `pairs`.
pub open spec fn param_in(pairs: Seq<Seq<char>>, name: Seq<char>) -> Option<Seq<char>>
    decreases pairs.len(),
{
    if pairs.len() == 0 {
        None
    } else {
        match param_in(pairs.drop_last(), name) {
            Some(v) => Some(v),
            None => {
                let p = pairs.last();
                match first_index_of(p, '=') {
                    Some(e) => if p.subrange(0, e) == name {
                        Some(p.subrange(e + 1, p.len() as int))
                    } else {
                        None
                    },
                    None => None,
                }
            },
        }
    }
}

/// The value of a query parameter (see `query_param`).
pub fn url_query_param(target: &str, name: &str) -> (r: Option<String>)
    ensures
        match r {
            Some(v) => query_param(target@, name@) == Some(v@),
            None => query_param(target@, name@) is None,
        },
{
    let cs = chars_of(target);
    let q = match find_char(cs.as_slice(), '?') {
        Some(q) => q,
        None => {
            return None;
        },
    };
    let query = slice_chars(cs.as_slice(), q + 1, cs.len());
    let pairs = split_chars(query.as_slice(), '&');
    proof {
        assert(query_param(target@, name@) == param_in(pairs.deep_view(), name@));
    }
    let ghost pv = pairs.deep_view();
    let mut k: usize = 0;
    proof {
        assert(pv.take(0) =~= Seq::<Seq<char>>::empty());
    }
    while k < pairs.len()
        invariant
            k <= pairs.len(),
            pv == pairs.deep_view(),
            pv == split_char(query@, '&'),
            query_param(target@, name@) == param_in(pv, name@),
            param_in(pv.take(k as int), name@) is None,
        decreases pairs.len() - k,
    {
        proof {
            assert(pv.take(k + 1).drop_last() =~= pv.take(k as int));
            assert(pv.take(k + 1).last() == pairs@[k as int]@);
        }
        let p = &pairs[k];
        match find_char(p.as_slice(), '=') {
            Some(e) => {
                let key = slice_chars(p.as_slice(), 0, e);
                if chars_eq_str(key.as_slice(), name) {
                    let v = slice_chars(p.as_slice(), e + 1, p.len());
                    proof {
                        assert(p@ == pv[k as int]);
                        assert(pv.take(k + 1).last() == p@);
                        assert(param_in(pv.take(k + 1).drop_last(), name@) is None);
                        assert(param_in(pv.take(k + 1), name@) == Some(v@));
                        lemma_param_in_prefix(pv, name@, k + 1);
                    }
                    return Some(string_of(v.as_slice()));
                }
            },
            None => {},
        }
        k = k + 1;
    }
    proof {
        assert(pv.take(pairs.len() as int) =~= pv);
    }
    None
}

/// A pair found among the first `k` pairs is the one found among all.
proof fn lemma_param_in_prefix(pairs: Seq<Seq<char>>, name: Seq<char>, k: int)
    requires
        0 <= k <= pairs.len(),
        param_in(pairs.take(k), name) is Some,
    ensures
        param_in(pairs, name) == param_in(pairs.take(k), name),
    decreases pairs.len() - k,
{
    if k < pairs.len() {
        assert(pairs.take(k + 1).drop_last() =~= pairs.take(k));
        lemma_param_in_prefix(pairs, name, k + 1);
    } else {
        assert(pairs.take(k) =~= pairs);
    }
}

/// The `Content-Length` of a header line (see `content_length_of_line`).
fn line_content_length(l: &[char]) -> (r: Option<u64>)
    ensures
        r == content_length_of_line(l@),
{
    match find_char(l, ':') {
        None => None,
        Some(i) => {
            let name = trim_chars(slice_chars(l, 0, i).as_slice());
            let want = chars_of("content-length");
            if crate::text::eq_ignore_ascii_case_chars(name.as_slice(), want.as_slice()) {
                let value = trim_chars(slice_chars(l, i + 1, l.len()).as_slice());
                parse_u64(value.as_slice())
            } else {
                None
            }
        },
    }
}

/// The first usable `Content-Length` of a header block (see `lines_of` and
/// `content_length_in`).
fn content_length(block: &[char]) -> (r: Option<u64>)
    ensures
        r == content_length_in(lines_of(block@)),
{
    let pieces = split_chars(block, '\n');
    let ghost p = pieces.deep_view();
    let ghost ls = lines_of(block@);
    let n = pieces.len();
    proof {
        assert(p.len() >= 1) by {
            lemma_split_nonempty(block@, '\n');
        }
        assert(ls.take(0) =~= Seq::<Seq<char>>::empty());
    }
    let mut k: usize = 0;
    while k + 1 < n
        invariant
            n == pieces.len(),
            n >= 1,
            p == pieces.deep_view(),
            p == split_char(block@, '\n'),
            ls == lines_of(block@),
            k + 1 <= n,
            content_length_in(ls.take(k as int)) is None,
        decreases n - k,
    {
        let piece = &pieces[k];
        let line = if piece.len() > 0 && piece[piece.len() - 1] == '\r' {
            slice_chars(piece.as_slice(), 0, piece.len() - 1)
        } else {
            slice_chars(piece.as_slice(), 0, piece.len())
        };
        proof {
            assert(piece@ == p[k as int]);
            assert(piece@.subrange(0, piece@.len() as int) =~= piece@);
            assert(piece@.subrange(0, piece@.len() - 1) =~= piece@.drop_last());
            assert(line@ == strip_cr(p[k as int]));
            assert(ls[k as int] == strip_cr(p[k as int]));
            assert(ls.take(k + 1).drop_last() =~= ls.take(k as int));
        }
        match line_content_length(line.as_slice()) {
            Some(v) => {
                proof {
                    lemma_content_length_prefix(ls, k + 1);
                }
                return Some(v);
            },
            None => {},
        }
        k = k + 1;
    }
    let last = &pieces[n - 1];
    proof {
        assert(last@ == p.last());
    }
    if last.len() > 0 {
        proof {
            assert(ls.take(n as int) =~= ls);
            assert(ls.take(n as int).drop_last() =~= ls.take(k as int));
        }
        line_content_length(last.as_slice())
    } else {
        proof {
            assert(ls.take(k as int) =~= ls);
        }
        None
    }
}

proof fn lemma_split_nonempty(s: Seq<char>, sep: char)
    ensures
        split_char(s, sep).len() >= 1,
    decreases s.len(),
{
    if s.len() > 0 {
        lemma_split_nonempty(s.drop_last(), sep);
    }
}

/// A length found among the first `k` lines is the one found among all.
proof fn lemma_content_length_prefix(lines: Seq<Seq<char>>, k: int)
    requires
        0 <= k <= lines.len(),
        content_length_in(lines.take(k)) is Some,
    ensures
        content_length_in(lines) == content_length_in(lines.take(k)),
    decreases lines.len() - k,
{
    if k < lines.len() {
        assert(lines.take(k + 1).drop_last() =~= lines.take(k));
        lemma_content_length_prefix(lines, k + 1);
    } else {
        assert(lines.take(k) =~= lines);
    }
}

// ── Answering a request ─────────────────────────────────────────────────

/// The canned answers of the channel.
#[derive(Debug, Clone, Copy, PartialEq, Eq, Structural)]
pub enum Reply {
    /// The CORS preflight, allowing the private-network POST.
    Preflight,
    /// Anything but `POST /upload…`.
    NotFound,
    /// A second upload while one runs.
    Conflict,
    /// A wrong or missing token.
    Forbidden,
    /// An upload without a body.
    EmptyBody,
    /// The recording was saved.
    Saved,
    /// Saving the recording failed.
    WriteFailed,
}

/// What to do with one request.
#[derive(Debug, Clone, Copy, PartialEq, Eq, Structural)]
pub enum RequestAction {
    /// Send nothing (the head has no request line) and keep listening.
    Ignore,
    /// Send the reply and keep listening.
    Reply(Reply),
    /// Receive a body of this many bytes into the file.
    Upload(u64),
}

/// The decision on a request head: no line break means no request line;
/// `OPTIONS` gets the preflight; anything but a `POST` to a target
/// starting with `/upload` is not found; a second upload conflicts; the
/// `token` query parameter must equal the channel's token; and the body
/// must have a non-zero `Content-Length`.
pub open spec fn request_decision(head: Seq<char>, token: Seq<char>, uploading: bool) -> RequestAction {
    match first_occurrence(head, "\r\n"@) {
        None => RequestAction::Ignore,
        Some(i) => {
            let line = head.subrange(0, i);
            let block = head.subrange(i + 2, head.len() as int);
            let method = word_or_empty(line, 0);
            let target = word_or_empty(line, 1);
            if method == "OPTIONS"@ {
                RequestAction::Reply(Reply::Preflight)
            } else if method != "POST"@ || !has_prefix(target, "/upload"@) {
                RequestAction::Reply(Reply::NotFound)
            } else if uploading {
                RequestAction::Reply(Reply::Conflict)
            } else if (match query_param(target, "token"@) {
                Some(v) => v,
                None => Seq::empty(),
            }) != token {
                RequestAction::Reply(Reply::Forbidden)
            } else {
                let n = match content_length_in(lines_of(block)) {
                    Some(n) => n,
                    None => 0,
                };
                if n == 0 {
                    RequestAction::Reply(Reply::EmptyBody)
                } else {
                    RequestAction::Upload(n)
                }
            }
        },
    }
}

/// Decides what to do with a request head (see `request_decision`).
pub fn decide_request(head: &str, token: &str, uploading: bool) -> (a: RequestAction)
    ensures
        a == request_decision(head@, token@, uploading),
{
    let cs = chars_of(head);
    let crlf = chars_of("\r\n");
    proof {
        reveal_strlit("\r\n");
    }
    let i = match find_chars(cs.as_slice(), crlf.as_slice()) {
        Some(i) => i,
        None => {
            return RequestAction::Ignore;
        },
    };
    let line = slice_chars(cs.as_slice(), 0, i);
    let block = slice_chars(cs.as_slice(), i + 2, cs.len());
    let ws = split_words(line.as_slice());
    let empty: Vec<char> = Vec::new();
    let method = if ws.len() > 0 {
        slice_chars(ws[0].as_slice(), 0, ws[0].len())
    } else {
        empty
    };
    let target = if ws.len() > 1 {
        slice_chars(ws[1].as_slice(), 0, ws[1].len())
    } else {
        Vec::new()
    };
    proof {
        if ws.len() > 0 {
            assert(ws@[0]@.subrange(0, ws@[0]@.len() as int) =~= ws@[0]@);
            assert(ws.deep_view()[0] == ws@[0]@);
        } else {
            assert(method@ =~= Seq::<char>::empty());
        }
        if ws.len() > 1 {
            assert(ws@[1]@.subrange(0, ws@[1]@.len() as int) =~= ws@[1]@);
            assert(ws.deep_view()[1] == ws@[1]@);
        } else {
            assert(target@ =~= Seq::<char>::empty());
        }
        assert(method@ == word_or_empty(line@, 0));
        assert(target@ == word_or_empty(line@, 1));
    }
    if chars_eq_str(method.as_slice(), "OPTIONS") {
        return RequestAction::Reply(Reply::Preflight);
    }
    if !chars_eq_str(method.as_slice(), "POST") || !crate::text::starts_with_chars(target.as_slice(), chars_of("/upload").as_slice()) {
        return RequestAction::Reply(Reply::NotFound);
    }
    if uploading {
        return RequestAction::Reply(Reply::Conflict);
    }
    let target_text = string_of(target.as_slice());
    let supplied = match url_query_param(target_text.as_str(), "token") {
        Some(v) => chars_of(v.as_str()),
        None => Vec::new(),
    };
    if !chars_eq_str(supplied.as_slice(), token) {
        return RequestAction::Reply(Reply::Forbidden);
    }
    let n = match content_length(block.as_slice()) {
        Some(n) => n,
        None => 0,
    };
    if n == 0 {
        RequestAction::Reply(Reply::EmptyBody)
    } else {
        RequestAction::Upload(n)
    }
}

/// The status, reason, headers and body of a reply.
pub open spec fn reply_parts(r: Reply) -> (u16, Seq<char>, Seq<(Seq<char>, Seq<char>)>, Seq<char>) {
    let any_origin = seq![("Access-Control-Allow-Origin"@, "*"@)];
    match r {
        Reply::Preflight => (
            204u16,
            "No Content"@,
            seq![
                ("Access-Control-Allow-Origin"@, "*"@),
                ("Access-Control-Allow-Methods"@, "POST, OPTIONS"@),
                ("Access-Control-Allow-Headers"@, "Content-Type"@),
                ("Access-Control-Allow-Private-Network"@, "true"@),
                ("Access-Control-Max-Age"@, "600"@),
            ],
            ""@,
        ),
        Reply::NotFound => (404, "Not Found"@, any_origin, "not found"@),
        Reply::Conflict => (409, "Conflict"@, any_origin, "upload already in progress"@),
        Reply::Forbidden => (403, "Forbidden"@, any_origin, "invalid token"@),
        Reply::EmptyBody => (400, "Bad Request"@, any_origin, "empty body"@),
        Reply::Saved => (200, "OK"@, any_origin, "saved"@),
        Reply::WriteFailed => (500, "Internal Server Error"@, any_origin, "write failed"@),
    }
}

/// The header lines of a response head: each `name: value` and CR LF.
pub open spec fn header_lines(hs: Seq<(Seq<char>, Seq<char>)>) -> Seq<char>
    decreases hs.len(),
{
    if hs.len() == 0 {
        Seq::empty()
    } else {
        header_lines(hs.drop_last()) + hs.last().0 + ": "@ + hs.last().1 + "\r\n"@
    }
}

/// A response head: the status line, the headers, the body's length, and
/// `Connection: close`, then the blank line.
pub open spec fn response_head_of(status: u16, reason: Seq<char>, hs: Seq<(Seq<char>, Seq<char>)>, body_len: nat) -> Seq<char> {
    "HTTP/1.1 "@ + decimal(status as nat) + " "@ + reason + "\r\n"@ + header_lines(hs) + "Content-Length: "@
        + decimal(body_len) + "\r\n"@ + "Connection: close\r\n\r\n"@
}

/// The text of a reply: its head then its body (all replies are ASCII, so
/// the body's length in bytes is its length in characters).
pub open spec fn reply_text(r: Reply) -> Seq<char> {
    let (status, reason, hs, body) = reply_parts(r);
    response_head_of(status, reason, hs, body.len()) + body
}

/// Appends `name: value` and CR LF.
fn push_header(out: &mut Vec<char>, name: &str, value: &str)
    ensures
        final(out)@ == old(out)@ + name@ + ": "@ + value@ + "\r\n"@,
{
    extend_str(out, name);
    extend_str(out, ": ");
    extend_str(out, value);
    extend_str(out, "\r\n");
}

/// The full text of a reply (see `reply_text`).
pub fn reply_bytes(r: Reply) -> (text: String)
    ensures
        text@ == reply_text(r),
{
    let mut out: Vec<char> = Vec::new();
    let (status, reason, body): (u64, &str, &str) = match r {
        Reply::Preflight => (204, "No Content", ""),
        Reply::NotFound => (404, "Not Found", "not found"),
        Reply::Conflict => (409, "Conflict", "upload already in progress"),
        Reply::Forbidden => (403, "Forbidden", "invalid token"),
        Reply::EmptyBody => (400, "Bad Request", "empty body"),
        Reply::Saved => (200, "OK", "saved"),
        Reply::WriteFailed => (500, "Internal Server Error", "write failed"),
    };
    extend_str(&mut out, "HTTP/1.1 ");
    extend_chars(&mut out, decimal_chars(status).as_slice());
    extend_str(&mut out, " ");
    extend_str(&mut out, reason);
    extend_str(&mut out, "\r\n");
    let ghost status_line = out@;
    proof {
        assert(status_line =~= "HTTP/1.1 "@ + decimal(status as nat) + " "@ + reason@ + "\r\n"@);
    }
    let ghost h1: Seq<(Seq<char>, Seq<char>)> = seq![("Access-Control-Allow-Origin"@, "*"@)];
    push_header(&mut out, "Access-Control-Allow-Origin", "*");
    proof {
        assert(h1.drop_last() =~= Seq::<(Seq<char>, Seq<char>)>::empty());
        assert(header_lines(h1.drop_last()) =~= Seq::<char>::empty());
        assert(out@ =~= status_line + header_lines(h1));
    }
    let ghost mut hs_done = h1;
    match r {
        Reply::Preflight => {
            let ghost prev = out@;
            push_header(&mut out, "Access-Control-Allow-Methods", "POST, OPTIONS");
            proof {
                let h = hs_done.push(("Access-Control-Allow-Methods"@, "POST, OPTIONS"@));
                assert(h.drop_last() =~= hs_done);
                assert(out@ =~= status_line + header_lines(h));
                hs_done = h;
            }
            push_header(&mut out, "Access-Control-Allow-Headers", "Content-Type");
            proof {
                let h = hs_done.push(("Access-Control-Allow-Headers"@, "Content-Type"@));
                assert(h.drop_last() =~= hs_done);
                assert(out@ =~= status_line + header_lines(h));
                hs_done = h;
            }
            push_header(&mut out, "Access-Control-Allow-Private-Network", "true");
            proof {
                let h = hs_done.push(("Access-Control-Allow-Private-Network"@, "true"@));
                assert(h.drop_last() =~= hs_done);
                assert(out@ =~= status_line + header_lines(h));
                hs_done = h;
            }
            push_header(&mut out, "Access-Control-Max-Age", "600");
            proof {
                let h = hs_done.push(("Access-Control-Max-Age"@, "600"@));
                assert(h.drop_last() =~= hs_done);
                assert(out@ =~= status_line + header_lines(h));
                hs_done = h;
            }
        },
        _ => {},
    }
    let ghost with_headers = out@;
    let body_chars = chars_of(body);
    extend_str(&mut out, "Content-Length: ");
    extend_chars(&mut out, decimal_chars(body_chars.len() as u64).as_slice());
    extend_str(&mut out, "\r\n");
    extend_str(&mut out, "Connection: close\r\n\r\n");
    extend_chars(&mut out, body_chars.as_slice());
    proof {
        let (st, rs, hs, bd) = reply_parts(r);
        assert(st as nat == status as nat);
        assert(rs == reason@);
        assert(bd == body@);
        assert(hs =~= hs_done);
        assert(with_headers == status_line + header_lines(hs));
        assert(out@ =~= with_headers + "Content-Length: "@ + decimal(bd.len()) + "\r\n"@ + "Connection: close\r\n\r\n"@ + bd);
        assert(response_head_of(st, rs, hs, bd.len()) =~= status_line + header_lines(hs) + "Content-Length: "@ + decimal(bd.len()) + "\r\n"@ + "Connection: close\r\n\r\n"@);
        assert(out@ =~= reply_text(r));
    }
    string_of(out.as_slice())
}

} // verus!
