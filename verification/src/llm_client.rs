//! The LLM chat client's pure parts: the grounding system prompt, the
//! endpoint URL and headers of each wire protocol, the framing of
//! server-sent events, and how provider failures are reported.

use vstd::prelude::*;
use crate::errors::AppError;
use crate::llm_config::{LlmProviderConfig, LlmProviderKind};
use crate::order::{lemma_lex_irreflexive, lemma_lex_total, lemma_lex_transitive, lex_less, lex_lt};
use crate::text::{
    chars_eq, chars_eq_str, chars_of, extend_chars, extend_str, has_prefix, string_of, trim,
    trim_char_end, trim_char_end_chars, trim_chars, trim_start, trim_start_chars,
};
use crate::transcript::{decimal, decimal_chars};

verus! {

/// Event name of streaming chat updates.
pub const LLM_CHAT_EVENT: &'static str = "llm-chat-event";

/// The fixed part of the assistant's system prompt: answer from the user's
/// cloud files first, and only with the user's consent from public
/// knowledge.
pub const SYSTEM_PROMPT_HEAD: &'static str = "You are the AI assistant inside ShareOneList, a OneDrive / SharePoint file \
manager. The user's documents live in their own Microsoft 365 cloud (OneDrive and \
SharePoint sites, possibly across Global and 21Vianet clouds).\n\n\
Rules:\n\
1. Ground your answers in the user's cloud files first. Files found in the user's \
cloud for the current question are listed below; rely on them when relevant and say \
which files your answer is based on. Files with an excerpt provide their (possibly \
truncated) text content — quote or summarize from it; files without one are known \
only by name and path.\n\
2. If the listed files and the conversation do not contain the needed information, \
do NOT silently answer from general knowledge. Ask the user whether to answer from \
internet / public knowledge instead, and clearly label such an answer as NOT based \
on their cloud files.\n\
3. Never invent file contents, file names, or paths. If no relevant files exist, \
say so plainly.\n\
4. Answer in the language the user writes in.\n\n\
Files found in the user's cloud for the current question:\n";

/// A single conversation message (`role` is `system`, `user` or `assistant`).
#[derive(Debug, Clone)]
pub struct LlmChatMessage {
    pub role: String,
    pub content: String,
}

/// A cloud file surfaced to the model as context for the current question.
#[derive(Debug, Clone)]
pub struct LlmContextFile {
    pub name: String,
    pub path: String,
    pub web_url: String,
    pub account_name: String,
    /// Truncated text of a small text document; none for name-only hits.
    pub excerpt: Option<String>,
}

/// Payload pushed to the frontend for a streaming chat request.
#[derive(Debug, Clone)]
pub struct LlmChatEvent {
    pub request_id: String,
    /// `delta`, `reasoning`, `done` or `error`.
    pub kind: String,
    pub delta: Option<String>,
    pub message: Option<String>,
}

/// The prompt lines describing one context file.
pub open spec fn context_file_text(f: LlmContextFile) -> Seq<char> {
    "- "@ + f.name@ + " \u{2014} "@ + (if f.path@.len() == 0 {
        "/"@
    } else {
        f.path@
    }) + " [account: "@ + f.account_name@ + "] ("@ + f.web_url@ + ")\n"@ + match f.excerpt {
        Some(e) => "  excerpt: \""@ + e@ + "\"\n"@,
        None => Seq::empty(),
    }
}

/// The prompt lines of a list of context files, in order.
pub open spec fn context_files_text(files: Seq<LlmContextFile>) -> Seq<char>
    decreases files.len(),
{
    if files.len() == 0 {
        Seq::empty()
    } else {
        context_files_text(files.drop_last()) + context_file_text(files.last())
    }
}

/// The full system prompt for the files found for the current question.
pub open spec fn system_prompt(files: Seq<LlmContextFile>) -> Seq<char> {
    SYSTEM_PROMPT_HEAD@ + if files.len() == 0 {
        "(none)\n"@
    } else {
        context_files_text(files)
    }
}

fn push_context_file(out: &mut Vec<char>, f: &LlmContextFile)
    ensures
        final(out)@ == old(out)@ + context_file_text(*f),
{
    extend_str(out, "- ");
    extend_str(out, f.name.as_str());
    extend_str(out, " \u{2014} ");
    let p = chars_of(f.path.as_str());
    if p.len() == 0 {
        extend_str(out, "/");
    } else {
        extend_str(out, f.path.as_str());
    }
    extend_str(out, " [account: ");
    extend_str(out, f.account_name.as_str());
    extend_str(out, "] (");
    extend_str(out, f.web_url.as_str());
    extend_str(out, ")\n");
    match &f.excerpt {
        Some(e) => {
            extend_str(out, "  excerpt: \"");
            extend_str(out, e.as_str());
            extend_str(out, "\"\n");
        },
        None => {},
    }
    proof {
        assert(out@ =~= old(out)@ + context_file_text(*f));
    }
}

/// The assistant's system prompt (see `system_prompt`).
pub fn build_system_prompt(context_files: &[LlmContextFile]) -> (p: String)
    ensures
        p@ == system_prompt(context_files@),
{
    let mut out: Vec<char> = Vec::new();
    extend_str(&mut out, SYSTEM_PROMPT_HEAD);
    if context_files.len() == 0 {
        extend_str(&mut out, "(none)\n");
    } else {
        let mut i: usize = 0;
        while i < context_files.len()
            invariant
                i <= context_files@.len(),
                out@ == SYSTEM_PROMPT_HEAD@ + context_files_text(context_files@.take(i as int)),
            decreases context_files.len() - i,
        {
            push_context_file(&mut out, &context_files[i]);
            proof {
                let t = context_files@.take(i + 1);
                assert(t.drop_last() =~= context_files@.take(i as int));
                assert(t.last() == context_files@[i as int]);
            }
            i = i + 1;
        }
        proof {
            assert(context_files@.take(context_files@.len() as int) =~= context_files@);
        }
    }
    string_of(out.as_slice())
}


// ── Endpoints and headers ───────────────────────────────────────────────

/// The endpoint of the chat-completions call, or why there is none.
/// OpenAI-compatible: `{base}/chat/completions`; Azure:
/// `{base}/openai/deployments/{model}/chat/completions?api-version={v}`
/// (version `2024-10-21` unless configured). The base is trimmed of
/// whitespace and trailing slashes.
pub open spec fn chat_endpoint(
    base_url: Seq<char>,
    kind: LlmProviderKind,
    api_version: Option<Seq<char>>,
    model_id: Seq<char>,
) -> Result<Seq<char>, (Seq<char>, Seq<char>)> {
    let base = trim_char_end(trim(base_url), '/');
    if base.len() == 0 {
        Err(("provider base URL is empty"@, "baseUrl"@))
    } else if model_id.len() == 0 {
        Err(("model id is empty"@, "modelId"@))
    } else {
        match kind {
            LlmProviderKind::OpenAiCompatible => Ok(base + "/chat/completions"@),
            LlmProviderKind::AzureOpenAi => Ok(
                base + "/openai/deployments/"@ + model_id + "/chat/completions?api-version="@
                    + match api_version {
                    Some(v) => v,
                    None => "2024-10-21"@,
                },
            ),
        }
    }
}

pub open spec fn opt_text(o: Option<String>) -> Option<Seq<char>> {
    match o {
        Some(s) => Some(s@),
        None => None,
    }
}

/// Computes the chat-completions endpoint URL for a provider (see
/// `chat_endpoint`).
pub fn chat_url(provider: &LlmProviderConfig, model_id: &str) -> (r: Result<String, AppError>)
    ensures
        match chat_endpoint(provider.base_url@, provider.kind, opt_text(provider.api_version), model_id@) {
            Ok(u) => r matches Ok(s) && s@ == u,
            Err((m, f)) => r matches Err(AppError::Validation { message, field }) && message@ == m
                && field@ == f,
        },
{
    let b = chars_of(provider.base_url.as_str());
    let t = trim_chars(b.as_slice());
    let base = trim_char_end_chars(t.as_slice(), '/');
    if base.len() == 0 {
        return Err(AppError::Validation {
            message: "provider base URL is empty".to_owned(),
            field: "baseUrl".to_owned(),
        });
    }
    let m = chars_of(model_id);
    if m.len() == 0 {
        return Err(AppError::Validation {
            message: "model id is empty".to_owned(),
            field: "modelId".to_owned(),
        });
    }
    let mut out: Vec<char> = Vec::new();
    extend_chars(&mut out, base.as_slice());
    match provider.kind {
        LlmProviderKind::OpenAiCompatible => {
            extend_str(&mut out, "/chat/completions");
        },
        LlmProviderKind::AzureOpenAi => {
            extend_str(&mut out, "/openai/deployments/");
            extend_str(&mut out, model_id);
            extend_str(&mut out, "/chat/completions?api-version=");
            match &provider.api_version {
                Some(v) => extend_str(&mut out, v.as_str()),
                None => extend_str(&mut out, "2024-10-21"),
            }
        },
    }
    Ok(string_of(out.as_slice()))
}

/// The views of header pairs.
pub open spec fn header_views(h: Seq<(String, String)>) -> Seq<(Seq<char>, Seq<char>)> {
    h.map_values(|p: (String, String)| (p.0@, p.1@))
}

/// Bearer authorization, the header of OpenAI-compatible providers.
pub fn auth_headers(api_key: &str) -> (h: Vec<(String, String)>)
    ensures
        header_views(h@) == seq![("Authorization"@, "Bearer "@ + api_key@)],
{
    let mut v: Vec<char> = Vec::new();
    extend_str(&mut v, "Bearer ");
    extend_str(&mut v, api_key);
    let mut h: Vec<(String, String)> = Vec::new();
    h.push(("Authorization".to_owned(), string_of(v.as_slice())));
    proof {
        assert(header_views(h@) =~= seq![("Authorization"@, "Bearer "@ + api_key@)]);
    }
    h
}

/// The `api-key` header Azure OpenAI documents.
pub fn azure_auth_headers(api_key: &str) -> (h: Vec<(String, String)>)
    ensures
        header_views(h@) == seq![("api-key"@, api_key@)],
{
    let mut h: Vec<(String, String)> = Vec::new();
    h.push(("api-key".to_owned(), api_key.to_owned()));
    proof {
        assert(header_views(h@) =~= seq![("api-key"@, api_key@)]);
    }
    h
}

/// The authentication headers of a provider's wire protocol.
pub fn headers_for(provider: &LlmProviderConfig, api_key: &str) -> (h: Vec<(String, String)>)
    ensures
        header_views(h@) == match provider.kind {
            LlmProviderKind::OpenAiCompatible => seq![("Authorization"@, "Bearer "@ + api_key@)],
            LlmProviderKind::AzureOpenAi => seq![("api-key"@, api_key@)],
        },
{
    match provider.kind {
        LlmProviderKind::OpenAiCompatible => auth_headers(api_key),
        LlmProviderKind::AzureOpenAi => azure_auth_headers(api_key),
    }
}

/// The base URL a provider's model list is fetched from, or the reason it
/// cannot be: Azure has no model list on its data plane, and the base must
/// not be blank.
pub open spec fn models_endpoint(base_url: Seq<char>, kind: LlmProviderKind) -> Result<Seq<char>, (Seq<char>, Seq<char>)> {
    let base = trim_char_end(trim(base_url), '/');
    if kind == LlmProviderKind::AzureOpenAi {
        Err(("Azure OpenAI does not expose a model list; enter deployment names manually"@, "models"@))
    } else if base.len() == 0 {
        Err(("provider base URL is empty"@, "baseUrl"@))
    } else {
        Ok(base + "/models"@)
    }
}

/// The URL of a provider's model list (see `models_endpoint`).
pub fn models_url(provider: &LlmProviderConfig) -> (r: Result<String, AppError>)
    ensures
        match models_endpoint(provider.base_url@, provider.kind) {
            Ok(u) => r matches Ok(s) && s@ == u,
            Err((m, f)) => r matches Err(AppError::Validation { message, field }) && message@ == m
                && field@ == f,
        },
{
    if provider.kind == LlmProviderKind::AzureOpenAi {
        return Err(AppError::Validation {
            message: "Azure OpenAI does not expose a model list; enter deployment names manually".to_owned(),
            field: "models".to_owned(),
        });
    }
    let b = chars_of(provider.base_url.as_str());
    let t = trim_chars(b.as_slice());
    let base = trim_char_end_chars(t.as_slice(), '/');
    if base.len() == 0 {
        return Err(AppError::Validation {
            message: "provider base URL is empty".to_owned(),
            field: "baseUrl".to_owned(),
        });
    }
    let mut out: Vec<char> = Vec::new();
    extend_chars(&mut out, base.as_slice());
    extend_str(&mut out, "/models");
    Ok(string_of(out.as_slice()))
}

// ── Provider failures ───────────────────────────────────────────────────

/// At most the first 300 characters of a response body.
pub open spec fn snippet_of(body: Seq<char>) -> Seq<char> {
    if body.len() <= 300 {
        body
    } else {
        body.take(300)
    }
}

/// How a failed HTTP status of a provider is reported: 401 and 403 as an
/// authentication failure, anything else as a provider error carrying the
/// status.
pub open spec fn provider_failure(status: u16, body: Seq<char>) -> AppErrorView {
    if status == 401 || status == 403 {
        AppErrorView::Network(
            "authentication failed (HTTP "@ + decimal(status as nat) + "): "@ + snippet_of(body),
            false,
        )
    } else {
        AppErrorView::GraphApi(
            "provider returned HTTP "@ + decimal(status as nat) + ": "@ + snippet_of(body),
            status,
        )
    }
}

/// The two error shapes a provider failure takes.
pub enum AppErrorView {
    Network(Seq<char>, bool),
    GraphApi(Seq<char>, u16),
}

fn snippet(body: &str) -> (s: Vec<char>)
    ensures
        s@ == snippet_of(body@),
{
    let v = chars_of(body);
    if v.len() <= 300 {
        v
    } else {
        let s = crate::text::slice_chars(v.as_slice(), 0, 300);
        proof {
            assert(v@.subrange(0, 300) =~= v@.take(300));
        }
        s
    }
}

/// The error for a provider's failed HTTP status (see `provider_failure`).
pub fn provider_http_error(status: u16, body: &str) -> (e: AppError)
    ensures
        match provider_failure(status, body@) {
            AppErrorView::Network(m, r) => e matches AppError::Network { message, retryable } && message@ == m && retryable == r,
            AppErrorView::GraphApi(m, c) => e matches AppError::GraphApi { message, status_code } && message@ == m && status_code == c,
        },
{
    let snip = snippet(body);
    let digits = decimal_chars(status as u64);
    let mut out: Vec<char> = Vec::new();
    if status == 401 || status == 403 {
        extend_str(&mut out, "authentication failed (HTTP ");
        extend_chars(&mut out, digits.as_slice());
        extend_str(&mut out, "): ");
        extend_chars(&mut out, snip.as_slice());
        AppError::Network { message: string_of(out.as_slice()), retryable: false }
    } else {
        extend_str(&mut out, "provider returned HTTP ");
        extend_chars(&mut out, digits.as_slice());
        extend_str(&mut out, ": ");
        extend_chars(&mut out, snip.as_slice());
        AppError::GraphApi { message: string_of(out.as_slice()), status_code: status }
    }
}

/// The text a streaming chat reports for a failed HTTP status.
pub fn stream_http_error(status: u16, body: &str) -> (s: String)
    ensures
        s@ == "provider returned HTTP "@ + decimal(status as nat) + ": "@ + snippet_of(body@),
{
    let snip = snippet(body);
    let digits = decimal_chars(status as u64);
    let mut out: Vec<char> = Vec::new();
    extend_str(&mut out, "provider returned HTTP ");
    extend_chars(&mut out, digits.as_slice());
    extend_str(&mut out, ": ");
    extend_chars(&mut out, snip.as_slice());
    string_of(out.as_slice())
}


// ── Server-sent events ──────────────────────────────────────────────────

/// Splitting bytes at `\n`: the completed lines (without the `\n`) and the
/// partial line after the last one.
pub open spec fn line_state(bytes: Seq<u8>) -> (Seq<Seq<u8>>, Seq<u8>)
    decreases bytes.len(),
{
    if bytes.len() == 0 {
        (Seq::empty(), Seq::empty())
    } else {
        let (done, cur) = line_state(bytes.drop_last());
        if bytes.last() == 0x0a {
            (done.push(cur), Seq::empty())
        } else {
            (done, cur.push(bytes.last()))
        }
    }
}

/// The text of one raw line: decoded (lossily), trailing `\r` removed, and
/// trimmed.
pub open spec fn sse_line_text(raw: Seq<u8>) -> Seq<char> {
    trim(trim_char_end(crate::webdav_fs::utf8_lossy(raw), '\r'))
}

/// The views of a list of strings.
pub open spec fn texts(v: Seq<String>) -> Seq<Seq<char>> {
    v.map_values(|s: String| s@)
}

/// What draining the line buffer yields: the text of every completed line
/// of the buffered and incoming bytes, followed, when flushing, by the text
/// of a non-empty partial line; and the bytes left buffered.
pub open spec fn drained(buffered: Seq<u8>, incoming: Seq<u8>, flush: bool) -> (Seq<Seq<char>>, Seq<u8>) {
    let (done, cur) = line_state(buffered + incoming);
    let lines = done.map_values(|l: Seq<u8>| sse_line_text(l));
    if flush && cur.len() > 0 {
        (lines.push(sse_line_text(cur)), Seq::empty())
    } else if flush {
        (lines, Seq::empty())
    } else {
        (lines, cur)
    }
}

fn sse_line_from_bytes(raw: &[u8]) -> (s: String)
    ensures
        s@ == sse_line_text(raw@),
{
    let text = crate::webdav_fs::from_utf8_lossy_text(raw);
    let v = chars_of(text.as_str());
    let t = trim_char_end_chars(v.as_slice(), '\r');
    let u = trim_chars(t.as_slice());
    string_of(u.as_slice())
}

/// Feeds newly arrived bytes into the line buffer and returns the text of
/// every complete line; with `flush` (end of stream) a remaining partial
/// line is returned too and the buffer emptied. Events split across chunk
/// boundaries are therefore read whole.
pub fn drain_sse_lines(buffer: &mut Vec<u8>, incoming: &[u8], flush: bool) -> (lines: Vec<String>)
    ensures
        (texts(lines@), final(buffer)@) == drained(old(buffer)@, incoming@, flush),
{
    let ghost all = old(buffer)@ + incoming@;
    let mut bytes: Vec<u8> = Vec::new();
    std::mem::swap(&mut bytes, buffer);
    let mut k: usize = 0;
    while k < incoming.len()
        invariant
            k <= incoming@.len(),
            bytes@ == old(buffer)@ + incoming@.take(k as int),
        decreases incoming.len() - k,
    {
        bytes.push(incoming[k]);
        proof {
            assert(bytes@ =~= old(buffer)@ + incoming@.take(k + 1));
        }
        k = k + 1;
    }
    proof {
        assert(incoming@.take(incoming@.len() as int) =~= incoming@);
        assert(bytes@ == all);
    }
    let mut lines: Vec<String> = Vec::new();
    let mut done_raw: Vec<Vec<u8>> = Vec::new();
    let mut cur: Vec<u8> = Vec::new();
    let mut i: usize = 0;
    while i < bytes.len()
        invariant
            i <= bytes@.len(),
            bytes@ == all,
            (done_raw@.map_values(|x: Vec<u8>| x@), cur@) == line_state(all.take(i as int)),
            texts(lines@) == done_raw@.map_values(|x: Vec<u8>| x@).map_values(
                |l: Seq<u8>| sse_line_text(l),
            ),
        decreases bytes.len() - i,
    {
        proof {
            assert(all.take(i + 1).drop_last() =~= all.take(i as int));
        }
        let b = bytes[i];
        let ghost d0 = done_raw@.map_values(|x: Vec<u8>| x@);
        let ghost c0 = cur@;
        let ghost l0 = texts(lines@);
        if b == 0x0a {
            let mut piece: Vec<u8> = Vec::new();
            std::mem::swap(&mut piece, &mut cur);
            lines.push(sse_line_from_bytes(piece.as_slice()));
            done_raw.push(piece);
            proof {
                assert(done_raw@.map_values(|x: Vec<u8>| x@) =~= d0.push(c0));
                assert(cur@ =~= Seq::<u8>::empty());
                assert(texts(lines@) =~= l0.push(sse_line_text(c0)));
                assert(d0.push(c0).map_values(|l: Seq<u8>| sse_line_text(l)) =~= d0.map_values(
                    |l: Seq<u8>| sse_line_text(l),
                ).push(sse_line_text(c0)));
            }
        } else {
            cur.push(b);
            proof {
                assert(done_raw@.map_values(|x: Vec<u8>| x@) =~= d0);
            }
        }
        i = i + 1;
    }
    proof {
        assert(all.take(all.len() as int) =~= all);
    }
    if flush {
        if cur.len() > 0 {
            let ghost l0 = texts(lines@);
            lines.push(sse_line_from_bytes(cur.as_slice()));
            proof {
                assert(texts(lines@) =~= l0.push(sse_line_text(cur@)));
            }
        }
        cur = Vec::new();
    }
    *buffer = cur;
    lines
}

/// What one SSE line carries: a `data:` payload (the end marker `[DONE]`,
/// or JSON to decode), or nothing for other lines and comments.
#[derive(Debug, Clone)]
pub enum SsePayload {
    Done,
    Json(String),
}

/// The payload of an SSE line (see `SsePayload`): after `data:` and any
/// leading whitespace.
pub open spec fn sse_payload_of(line: Seq<char>) -> Option<Option<Seq<char>>> {
    if has_prefix(line, "data:"@) {
        let payload = trim_start(line.subrange(5, line.len() as int));
        if payload == "[DONE]"@ {
            Some(None)
        } else {
            Some(Some(payload))
        }
    } else {
        None
    }
}

/// Classifies an SSE line (see `sse_payload_of`).
pub fn sse_payload(line: &str) -> (r: Option<SsePayload>)
    ensures
        match sse_payload_of(line@) {
            None => r is None,
            Some(None) => r matches Some(SsePayload::Done),
            Some(Some(p)) => r matches Some(SsePayload::Json(j)) && j@ == p,
        },
{
    let v = chars_of(line);
    let prefix = chars_of("data:");
    if !crate::text::starts_with_chars(v.as_slice(), prefix.as_slice()) {
        return None;
    }
    proof {
        reveal_strlit("data:");
    }
    let rest = crate::text::slice_chars(v.as_slice(), 5, v.len());
    let payload = trim_start_chars(rest.as_slice());
    if chars_eq_str(payload.as_slice(), "[DONE]") {
        Some(SsePayload::Done)
    } else {
        Some(SsePayload::Json(string_of(payload.as_slice())))
    }
}

/// The deltas of one SSE data line.
#[derive(Debug, Clone)]
pub struct ParsedLine {
    pub content: Option<String>,
    pub reasoning: Option<String>,
    pub done: bool,
}

pub open spec fn non_empty_text(o: Option<String>) -> Option<Seq<char>> {
    match o {
        Some(s) => if s@.len() > 0 {
            Some(s@)
        } else {
            None
        },
        None => None,
    }
}

fn keep_non_empty(o: Option<String>) -> (r: Option<String>)
    ensures
        opt_text(r) == non_empty_text(o),
{
    match o {
        Some(s) => {
            let v = chars_of(s.as_str());
            if v.len() > 0 {
                Some(s)
            } else {
                None
            }
        },
        None => None,
    }
}

/// The parsed line of a decoded JSON delta: empty strings count as absent.
pub fn parsed_delta(content: Option<String>, reasoning: Option<String>) -> (p: ParsedLine)
    ensures
        opt_text(p.content) == non_empty_text(content),
        opt_text(p.reasoning) == non_empty_text(reasoning),
        !p.done,
{
    ParsedLine { content: keep_non_empty(content), reasoning: keep_non_empty(reasoning), done: false }
}

/// The parsed line of the end marker.
pub fn parsed_done() -> (p: ParsedLine)
    ensures
        p.content is None,
        p.reasoning is None,
        p.done,
{
    ParsedLine { content: None, reasoning: None, done: true }
}

/// The frontend events for one parsed line: a `delta` event for content,
/// then a `reasoning` event for reasoning text.
pub fn events_for_line(request_id: &str, line: &ParsedLine) -> (ev: Vec<LlmChatEvent>)
    ensures
        ev@.len() == (if line.content is Some { 1nat } else { 0nat }) + (if line.reasoning is Some {
            1nat
        } else {
            0nat
        }),
        forall|i: int| 0 <= i < ev@.len() ==> (#[trigger] ev@[i]).request_id@ == request_id@,
        line.content is Some ==> ev@[0].kind@ == "delta"@ && opt_text(ev@[0].delta) == opt_text(line.content),
        line.reasoning is Some ==> ev@[ev@.len() - 1].kind@ == "reasoning"@ && opt_text(ev@[ev@.len() - 1].delta) == opt_text(line.reasoning),
{
    let mut ev: Vec<LlmChatEvent> = Vec::new();
    match &line.content {
        Some(d) => {
            ev.push(LlmChatEvent {
                request_id: request_id.to_owned(),
                kind: "delta".to_owned(),
                delta: Some(d.clone()),
                message: None,
            });
        },
        None => {},
    }
    match &line.reasoning {
        Some(r) => {
            ev.push(LlmChatEvent {
                request_id: request_id.to_owned(),
                kind: "reasoning".to_owned(),
                delta: Some(r.clone()),
                message: None,
            });
        },
        None => {},
    }
    ev
}

// ── Model lists ─────────────────────────────────────────────────────────

/// Whether a text is among the strings.
pub open spec fn has_text(v: Seq<String>, t: Seq<char>) -> bool {
    exists|i: int| 0 <= i < v.len() && #[trigger] v[i]@ == t
}

/// Model ids sorted ascending with duplicates removed.
pub fn sorted_unique_ids(ids: Vec<String>) -> (out: Vec<String>)
    ensures
        forall|i: int, j: int| 0 <= i < j < out@.len() ==> lex_lt(#[trigger] out@[i]@, #[trigger] out@[j]@),
        forall|t: Seq<char>| has_text(out@, t) <==> has_text(ids@, t),
{
    let mut out: Vec<String> = Vec::new();
    let mut k: usize = 0;
    while k < ids.len()
        invariant
            k <= ids@.len(),
            forall|i: int, j: int| 0 <= i < j < out@.len() ==> lex_lt(#[trigger] out@[i]@, #[trigger] out@[j]@),
            forall|t: Seq<char>| has_text(out@, t) <==> has_text(ids@.take(k as int), t),
        decreases ids.len() - k,
    {
        let x = chars_of(ids[k].as_str());
        let mut p: usize = 0;
        while p < out.len() && lex_less(chars_of(out[p].as_str()).as_slice(), x.as_slice())
            invariant
                p <= out@.len(),
                forall|q: int| 0 <= q < p ==> lex_lt(#[trigger] out@[q]@, x@),
            decreases out.len() - p,
        {
            p = p + 1;
        }
        let ghost before = out@;
        let dup = p < out.len() && chars_eq(chars_of(out[p].as_str()).as_slice(), x.as_slice());
        if !dup {
            out.insert(p, ids[k].clone());
            proof {
                assert forall|i: int, j: int| 0 <= i < j < out@.len() implies lex_lt(#[trigger] out@[i]@, #[trigger] out@[j]@) by {
                    if p < before.len() {
                        lemma_lex_total(before[p as int]@, x@);
                    }
                    if j < p {
                        assert(out@[i] == before[i] && out@[j] == before[j]);
                    } else if i > p {
                        assert(out@[i] == before[i - 1] && out@[j] == before[j - 1]);
                    } else if i == p {
                        assert(out@[j] == before[j - 1]);
                        if j - 1 > p {
                            lemma_lex_transitive(x@, before[p as int]@, before[j - 1]@);
                        }
                    } else if j == p {
                        assert(out@[i] == before[i]);
                    } else {
                        assert(out@[i] == before[i] && out@[j] == before[j - 1]);
                    }
                }
            }
        }
        proof {
            assert forall|t: Seq<char>| has_text(out@, t) <==> has_text(ids@.take(k + 1), t) by {
                let tk = ids@.take(k + 1);
                assert(tk[k as int] == ids@[k as int]);
                if has_text(ids@.take(k as int), t) {
                    let w = choose|w: int| 0 <= w < k && #[trigger] ids@.take(k as int)[w]@ == t;
                    assert(tk[w] == ids@.take(k as int)[w]);
                }
                if has_text(tk, t) {
                    let w = choose|w: int| 0 <= w < k + 1 && #[trigger] tk[w]@ == t;
                    if w < k {
                        assert(ids@.take(k as int)[w] == tk[w]);
                    }
                }
                if dup {
                    if has_text(out@, t) {
                    }
                    if t == x@ {
                        assert(out@[p as int]@ == t);
                    }
                } else {
                    assert(out@[p as int]@ == x@);
                    if has_text(out@, t) {
                        let w = choose|w: int| 0 <= w < out@.len() && #[trigger] out@[w]@ == t;
                        if w < p {
                            assert(before[w]@ == t);
                        } else if w > p {
                            assert(before[w - 1]@ == t);
                        }
                    }
                    if has_text(before, t) {
                        let w = choose|w: int| 0 <= w < before.len() && #[trigger] before[w]@ == t;
                        if w < p {
                            assert(out@[w]@ == t);
                        } else {
                            assert(out@[w + 1]@ == t);
                        }
                    }
                }
            }
        }
        k = k + 1;
    }
    proof {
        assert(ids@.take(ids@.len() as int) =~= ids@);
    }
    out
}

// ── Connection checks ───────────────────────────────────────────────────

/// The model a connection test pings: the provider's first model, which
/// must have a wire id.
pub fn ping_model(provider: &LlmProviderConfig) -> (r: Result<String, AppError>)
    ensures
        provider.models@.len() > 0 && provider.models@[0].model_id@.len() > 0 ==> r
            == Ok::<String, AppError>(provider.models@[0].model_id),
        !(provider.models@.len() > 0 && provider.models@[0].model_id@.len() > 0) ==> (r matches Err(
            AppError::Validation { message, field },
        ) && message@ == "provider has no model configured"@ && field@ == "models"@),
{
    if provider.models.len() > 0 && chars_of(provider.models[0].model_id.as_str()).len() > 0 {
        Ok(provider.models[0].model_id.clone())
    } else {
        Err(
            AppError::Validation {
                message: string_of(chars_of("provider has no model configured").as_slice()),
                field: string_of(chars_of("models").as_slice()),
            },
        )
    }
}

/// The error of a request to a provider that could not be sent: a
/// connection failure or timeout names the provider and is worth retrying;
/// any other failure is reported as it is.
pub fn send_failure(base_url: &str, unreachable: bool, reason: &str) -> (e: AppError)
    ensures
        unreachable ==> (e matches AppError::Network { message, retryable } && retryable
            && message@ == "cannot reach "@ + base_url@ + ": "@ + reason@),
        !unreachable ==> (e matches AppError::Network { message, retryable } && !retryable
            && message@ == reason@),
{
    if unreachable {
        let mut v = chars_of("cannot reach ");
        extend_str(&mut v, base_url);
        extend_str(&mut v, ": ");
        extend_str(&mut v, reason);
        AppError::Network { message: string_of(v.as_slice()), retryable: true }
    } else {
        AppError::Network { message: string_of(chars_of(reason).as_slice()), retryable: false }
    }
}

// ── Laws of the stream ──────────────────────────────────────────────────

proof fn lemma_state_without_newline(s: Seq<u8>)
    requires
        forall|i: int| 0 <= i < s.len() ==> s[i] != 0x0a,
    ensures
        line_state(s) == (Seq::<Seq<u8>>::empty(), s),
    decreases s.len(),
{
    if s.len() > 0 {
        lemma_state_without_newline(s.drop_last());
        assert(s.drop_last().push(s.last()) =~= s);
    }
}

proof fn lemma_partial_line_has_no_newline(x: Seq<u8>)
    ensures
        forall|i: int| 0 <= i < line_state(x).1.len() ==> line_state(x).1[i] != 0x0a,
    decreases x.len(),
{
    if x.len() > 0 {
        lemma_partial_line_has_no_newline(x.drop_last());
        let (d0, c0) = line_state(x.drop_last());
        if x.last() != 0x0a {
            assert(line_state(x).1 == c0.push(x.last()));
            assert forall|i: int| 0 <= i < line_state(x).1.len() implies line_state(x).1[i] != 0x0a by {
                if i < c0.len() {
                    assert(line_state(x).1[i] == c0[i]);
                }
            }
        } else {
            assert(line_state(x).1.len() == 0);
        }
    }
}

proof fn lemma_line_state_append(x: Seq<u8>, y: Seq<u8>)
    ensures
        line_state(x + y) == (
            line_state(x).0 + line_state(line_state(x).1 + y).0,
            line_state(line_state(x).1 + y).1,
        ),
    decreases y.len(),
{
    let c = line_state(x).1;
    if y.len() == 0 {
        assert(x + y =~= x);
        assert(c + y =~= c);
        lemma_partial_line_has_no_newline(x);
        lemma_state_without_newline(c);
        assert(line_state(x).0 + Seq::<Seq<u8>>::empty() =~= line_state(x).0);
    } else {
        let y0 = y.drop_last();
        lemma_line_state_append(x, y0);
        assert((x + y).drop_last() =~= x + y0);
        assert((x + y).last() == y.last());
        assert((c + y).drop_last() =~= c + y0);
        assert((c + y).last() == y.last());
        let (d1, _) = line_state(x);
        let (d2, c2) = line_state(c + y0);
        if y.last() == 0x0a {
            assert(d1 + d2.push(c2) =~= (d1 + d2).push(c2));
        }
    }
}

/// Server-sent events are read the same however the stream is cut into
/// chunks: feeding `a` and then `b` yields the lines of feeding `a + b`
/// at once, and leaves the same bytes buffered.
pub proof fn lemma_sse_chunks_reassemble(buffered: Seq<u8>, a: Seq<u8>, b: Seq<u8>, flush: bool)
    ensures
        ({
            let (l1, r1) = drained(buffered, a, false);
            let (l2, r2) = drained(r1, b, flush);
            (l1 + l2, r2) == drained(buffered, a + b, flush)
        }),
{
    let x = buffered + a;
    lemma_line_state_append(x, b);
    assert(buffered + (a + b) =~= x + b);
    let (d1, c1) = line_state(x);
    let (d2, c2) = line_state(c1 + b);
    assert(c1 + Seq::<u8>::empty() =~= c1);
    assert((d1 + d2).map_values(|l: Seq<u8>| sse_line_text(l)) =~= d1.map_values(
        |l: Seq<u8>| sse_line_text(l),
    ) + d2.map_values(|l: Seq<u8>| sse_line_text(l)));
    let m1 = d1.map_values(|l: Seq<u8>| sse_line_text(l));
    let m2 = d2.map_values(|l: Seq<u8>| sse_line_text(l));
    if flush && c2.len() > 0 {
        assert(m1 + m2.push(sse_line_text(c2)) =~= (m1 + m2).push(sse_line_text(c2)));
    }
}

/// The bytes of consecutive pieces of a stream, joined.
pub open spec fn joined_pieces(pieces: Seq<Seq<u8>>) -> Seq<u8>
    decreases pieces.len(),
{
    if pieces.len() == 0 {
        Seq::empty()
    } else {
        joined_pieces(pieces.drop_last()) + pieces.last()
    }
}

/// Feeding the pieces one after another without flushing: the lines read
/// so far, and the bytes left buffered.
pub open spec fn fed_pieces(buffered: Seq<u8>, pieces: Seq<Seq<u8>>) -> (Seq<Seq<char>>, Seq<u8>)
    decreases pieces.len(),
{
    if pieces.len() == 0 {
        (Seq::empty(), buffered)
    } else {
        let (l1, r1) = fed_pieces(buffered, pieces.drop_last());
        let (l2, r2) = drained(r1, pieces.last(), false);
        (l1 + l2, r2)
    }
}

proof fn lemma_fed_pieces_joined(pieces: Seq<Seq<u8>>)
    ensures
        fed_pieces(Seq::empty(), pieces) == drained(Seq::empty(), joined_pieces(pieces), false),
    decreases pieces.len(),
{
    if pieces.len() == 0 {
        let e = Seq::<u8>::empty();
        assert(e + e =~= e);
        assert(line_state(e) == (Seq::<Seq<u8>>::empty(), e));
        assert(Seq::<Seq<u8>>::empty().map_values(|l: Seq<u8>| sse_line_text(l)) =~= Seq::<Seq<char>>::empty());
    } else {
        let rest = pieces.drop_last();
        lemma_fed_pieces_joined(rest);
        lemma_sse_chunks_reassemble(Seq::empty(), joined_pieces(rest), pieces.last(), false);
        assert(Seq::<u8>::empty() + (joined_pieces(rest) + pieces.last()) =~= Seq::<u8>::empty()
            + joined_pieces(pieces));
    }
}

/// Server-sent events are read the same however the stream is cut: feeding
/// any number of consecutive pieces one after another, then ending the
/// stream (`flush`), yields the same lines, and leaves the same bytes
/// buffered, as feeding all their bytes at once. Everything read from a
/// line (its payload, the content and reasoning deltas) is a function of
/// the line alone, so the deltas come out the same too.
pub proof fn lemma_sse_pieces_reassemble(pieces: Seq<Seq<u8>>, flush: bool)
    ensures
        ({
            let (l1, r1) = fed_pieces(Seq::empty(), pieces);
            let (l2, r2) = drained(r1, Seq::empty(), flush);
            (l1 + l2, r2) == drained(Seq::empty(), joined_pieces(pieces), flush)
        }),
{
    let j = joined_pieces(pieces);
    lemma_fed_pieces_joined(pieces);
    lemma_sse_chunks_reassemble(Seq::empty(), j, Seq::empty(), flush);
    assert(j + Seq::<u8>::empty() =~= j);
}

/// Every system prompt carries the assistant's standing rules: it starts
/// with the fixed head (cloud files first, ask before answering from the
/// internet, never invent file contents), with or without context files.
pub proof fn lemma_prompt_keeps_grounding_rules(files: Seq<LlmContextFile>)
    ensures
        has_prefix(system_prompt(files), SYSTEM_PROMPT_HEAD@),
{
    let p = system_prompt(files);
    assert(p.subrange(0, SYSTEM_PROMPT_HEAD@.len() as int) =~= SYSTEM_PROMPT_HEAD@);
}

} // verus!
