//! The decisions of the chat history and memory stores: what a saved
//! memory holds, how an extraction's list replaces the automatic memories,
//! when a conversation's user messages trigger an extraction, and how a
//! conversation gets its title. The rows themselves live in SQLite, which
//! the caller drives.

use vstd::prelude::*;
use crate::errors::AppError;
use crate::llm_config::{copy_provider, provider_index, LlmConfig, LlmConfigManager, LlmProviderConfig};
use crate::text::{
    chars_eq_str, chars_of, contains_seq, extend_chars, extend_str, find_chars, string_of, trim,
    trim_chars,
};
use crate::updater::{parse_u64, parsed_u64};

verus! {

/// Source id of memories the user wrote by hand.
pub const MANUAL_SOURCE: &'static str = "manual";

/// Source id of the rows that count a conversation's user messages.
pub const COUNTER_SOURCE: &'static str = "__counter";

/// Length, in characters, of a title taken from a first user message.
pub const AUTO_TITLE_CHARS: usize = 30;

/// One persisted memory entry.
#[derive(Debug, Clone)]
pub struct MemoryEntry {
    pub id: String,
    pub content: String,
    pub source_conversation_id: String,
    pub enabled: bool,
    pub pinned: bool,
    pub use_count: i64,
    pub last_used_at: i64,
    pub created_at: i64,
    pub updated_at: i64,
}

/// An automatic memory as it stood before a replacement.
#[derive(Debug, Clone)]
pub struct PreviousMemory {
    pub id: String,
    pub content: String,
    pub use_count: i64,
    pub last_used_at: i64,
}

/// A row written by a replacement: `id` is `None` for a new memory (the
/// caller gives it a fresh id), else the id whose statistics it keeps.
#[derive(Debug, Clone)]
pub struct MemoryRow {
    pub id: Option<String>,
    pub content: String,
    pub use_count: i64,
    pub last_used_at: i64,
}

/// What a new user message does to a conversation's extraction counter.
#[derive(Debug, Clone, Copy, PartialEq, Eq, Structural)]
pub enum ExtractionStep {
    /// Nothing: the message is not the user's, or memory is off.
    Skip,
    /// Store this count and wait for more messages.
    Count(usize),
    /// Reset the counter to zero and extract now.
    Extract,
}

/// A row as values: its id (if kept), content and statistics.
pub open spec fn row_view(r: MemoryRow) -> (Option<Seq<char>>, Seq<char>, i64, i64) {
    (
        match r.id {
            Some(i) => Some(i@),
            None => None,
        },
        r.content@,
        r.use_count,
        r.last_used_at,
    )
}

pub open spec fn rows_view(rs: Seq<MemoryRow>) -> Seq<(Option<Seq<char>>, Seq<char>, i64, i64)> {
    rs.map_values(|r: MemoryRow| row_view(r))
}

/// The first earlier automatic memory with exactly this content.
pub open spec fn predecessor(prev: Seq<PreviousMemory>, content: Seq<char>) -> Option<PreviousMemory>
    decreases prev.len(),
{
    if prev.len() == 0 {
        None
    } else if prev[0].content@ == content {
        Some(prev[0])
    } else {
        predecessor(prev.drop_first(), content)
    }
}

/// The row for one trimmed content: it keeps the id and statistics of its
/// predecessor, or starts afresh with none.
pub open spec fn row_for(prev: Seq<PreviousMemory>, content: Seq<char>) -> (Option<Seq<char>>, Seq<char>, i64, i64) {
    match predecessor(prev, content) {
        Some(p) => (Some(p.id@), content, p.use_count, p.last_used_at),
        None => (None, content, 0, 0),
    }
}

/// The rows replacing the automatic memories: one per content that is not
/// blank once trimmed, in order.
pub open spec fn replacement_rows(prev: Seq<PreviousMemory>, contents: Seq<Seq<char>>) -> Seq<(Option<Seq<char>>, Seq<char>, i64, i64)>
    decreases contents.len(),
{
    if contents.len() == 0 {
        Seq::empty()
    } else {
        let r = replacement_rows(prev, contents.drop_last());
        let t = trim(contents.last());
        if t.len() == 0 {
            r
        } else {
            r.push(row_for(prev, t))
        }
    }
}

pub open spec fn texts(v: Seq<String>) -> Seq<Seq<char>> {
    v.map_values(|s: String| s@)
}

fn first_predecessor(prev: &Vec<PreviousMemory>, content: &[char]) -> (r: Option<usize>)
    ensures
        match r {
            Some(i) => i < prev.len() && predecessor(prev@, content@) == Some(prev@[i as int]),
            None => predecessor(prev@, content@) is None,
        },
{
    let mut i: usize = 0;
    proof {
        assert(prev@.subrange(0, prev@.len() as int) =~= prev@);
    }
    while i < prev.len()
        invariant
            i <= prev.len(),
            predecessor(prev@, content@) == predecessor(prev@.subrange(i as int, prev@.len() as int), content@),
        decreases prev.len() - i,
    {
        proof {
            let rest = prev@.subrange(i as int, prev@.len() as int);
            assert(rest[0] == prev@[i as int]);
            assert(rest.drop_first() =~= prev@.subrange(i + 1, prev@.len() as int));
        }
        if chars_eq_str(content, prev[i].content.as_str()) {
            return Some(i);
        }
        i = i + 1;
    }
    proof {
        assert(prev@.subrange(i as int, prev@.len() as int) =~= Seq::<PreviousMemory>::empty());
    }
    None
}

/// The rows that replace the automatic memories (those neither written by
/// hand nor pinned, which the caller removes first): one per non-blank
/// content, trimmed, keeping the id and usage statistics of an earlier
/// memory with the same content (see `replacement_rows`). The number of
/// rows is the number reported as inserted.
pub fn auto_memory_rows(previous: &Vec<PreviousMemory>, contents: &Vec<String>) -> (out: Vec<MemoryRow>)
    ensures
        rows_view(out@) == replacement_rows(previous@, texts(contents@)),
{
    let ghost cv = texts(contents@);
    let mut out: Vec<MemoryRow> = Vec::new();
    let mut k: usize = 0;
    while k < contents.len()
        invariant
            k <= contents.len(),
            cv == texts(contents@),
            rows_view(out@) == replacement_rows(previous@, cv.take(k as int)),
        decreases contents.len() - k,
    {
        proof {
            assert(cv.take(k + 1).drop_last() =~= cv.take(k as int));
            assert(cv.take(k + 1).last() == contents@[k as int]@);
        }
        let t = trim_chars(chars_of(contents[k].as_str()).as_slice());
        if t.len() > 0 {
            let row = match first_predecessor(previous, t.as_slice()) {
                Some(i) => {
                    let p = &previous[i];
                    MemoryRow {
                        id: Some(string_of(chars_of(p.id.as_str()).as_slice())),
                        content: string_of(t.as_slice()),
                        use_count: p.use_count,
                        last_used_at: p.last_used_at,
                    }
                },
                None => MemoryRow { id: None, content: string_of(t.as_slice()), use_count: 0, last_used_at: 0 },
            };
            let ghost before = rows_view(out@);
            out.push(row);
            proof {
                assert(rows_view(out@) =~= before.push(row_view(row)));
            }
        }
        k = k + 1;
    }
    proof {
        assert(cv.take(contents.len() as int) =~= cv);
    }
    out
}

/// A replacement never loses an automatic memory's usage statistics while
/// its content is unchanged: every row whose content an earlier memory had
/// keeps the first such memory's id, use count and last use; every other
/// row starts unused.
pub proof fn lemma_replacement_inherits_stats(prev: Seq<PreviousMemory>, contents: Seq<Seq<char>>, k: int)
    requires
        0 <= k < replacement_rows(prev, contents).len(),
    ensures
        ({
            let r = replacement_rows(prev, contents)[k];
            match predecessor(prev, r.1) {
                Some(p) => r.0 == Some(p.id@) && r.2 == p.use_count && r.3 == p.last_used_at,
                None => r.0 is None && r.2 == 0 && r.3 == 0,
            }
        }),
        trim(replacement_rows(prev, contents)[k].1) == replacement_rows(prev, contents)[k].1,
        replacement_rows(prev, contents)[k].1.len() > 0,
    decreases contents.len(),
{
    let r = replacement_rows(prev, contents.drop_last());
    if k < r.len() {
        lemma_replacement_inherits_stats(prev, contents.drop_last(), k);
    } else {
        crate::transcript::lemma_trim_idempotent(contents.last());
    }
}

/// The content a saved memory gets: trimmed, and refused when blank.
pub fn memory_content(content: &str) -> (r: Result<String, AppError>)
    ensures
        trim(content@).len() == 0 ==> r is Err && is_validation(
            r->Err_0,
            "memory content must not be empty"@,
            "content"@,
        ),
        trim(content@).len() > 0 ==> (r matches Ok(c) && c@ == trim(content@)),
{
    let t = trim_chars(chars_of(content).as_slice());
    if t.len() == 0 {
        Err(
            AppError::Validation {
                message: string_of(chars_of("memory content must not be empty").as_slice()),
                field: string_of(chars_of("content").as_slice()),
            },
        )
    } else {
        Ok(string_of(t.as_slice()))
    }
}

/// The ids, in order, of the `(id, content)` rows whose content holds
/// `keyword` anywhere.
pub open spec fn forgotten_ids(rows: Seq<(String, String)>, keyword: Seq<char>) -> Seq<Seq<char>>
    decreases rows.len(),
{
    if rows.len() == 0 {
        Seq::empty()
    } else {
        let rest = forgotten_ids(rows.drop_last(), keyword);
        if contains_seq(rows.last().1@, keyword) {
            rest.push(rows.last().0@)
        } else {
            rest
        }
    }
}

/// The memories `#forget keyword` deletes, from the `(id, content)` rows
/// of the memory table: those whose content contains the keyword (see
/// `forgotten_ids`).
pub fn memories_to_forget(rows: &[(String, String)], keyword: &str) -> (r: Vec<String>)
    ensures
        texts(r@) == forgotten_ids(rows@, keyword@),
{
    let k = chars_of(keyword);
    let mut out: Vec<String> = Vec::new();
    let mut i: usize = 0;
    while i < rows.len()
        invariant
            i <= rows@.len(),
            k@ == keyword@,
            texts(out@) == forgotten_ids(rows@.take(i as int), keyword@),
        decreases rows.len() - i,
    {
        proof {
            assert(rows@.take(i + 1).drop_last() =~= rows@.take(i as int));
            assert(rows@.take(i + 1).last() == rows@[i as int]);
        }
        let content = chars_of(rows[i].1.as_str());
        let found = find_chars(content.as_slice(), k.as_slice());
        if found.is_some() {
            let ghost before = texts(out@);
            out.push(rows[i].0.clone());
            proof {
                assert(texts(out@) =~= before.push(rows@[i as int].0@));
            }
        }
        i = i + 1;
    }
    proof {
        assert(rows@.take(rows@.len() as int) =~= rows@);
    }
    out
}

/// The id of the row counting a conversation's user messages.
pub fn counter_key(conversation_id: &str) -> (k: String)
    ensures
        k@ == "__counter_"@ + conversation_id@,
{
    let mut v = chars_of("__counter_");
    extend_str(&mut v, conversation_id);
    string_of(v.as_slice())
}

/// The count a counter row holds: its text read as a number, zero where
/// there is no row or the text is no number that fits.
pub open spec fn counter_value(stored: Option<Seq<char>>) -> nat {
    match stored {
        Some(t) => match parsed_u64(t) {
            Some(n) => if n <= usize::MAX {
                n as nat
            } else {
                0
            },
            None => 0,
        },
        None => 0,
    }
}

/// The count a counter row holds (see `counter_value`).
pub fn read_counter(stored: Option<String>) -> (n: usize)
    ensures
        n == counter_value(
            match stored {
                Some(s) => Some(s@),
                None => None,
            },
        ),
{
    match stored {
        Some(s) => match parse_u64(chars_of(s.as_str()).as_slice()) {
            Some(n) => if n <= usize::MAX as u64 {
                n as usize
            } else {
                0
            },
            None => 0,
        },
        None => 0,
    }
}

/// What a new message does to the extraction counter: only a user's message
/// counts, and only while memory is on; every `every`-th one (at least
/// every one) triggers an extraction and resets the count.
pub open spec fn extraction_step(is_user: bool, enabled: bool, every: u32, since: nat) -> ExtractionStep {
    if !is_user || !enabled {
        ExtractionStep::Skip
    } else if since + 1 < (if every < 1 { 1 } else { every as nat }) {
        ExtractionStep::Count((since + 1) as usize)
    } else {
        ExtractionStep::Extract
    }
}

/// What a new message with `role` does to a conversation whose counter
/// stands at `since` (see `extraction_step`).
pub fn next_extraction_step(role: &str, enabled: bool, extract_every: u32, since: usize) -> (s: ExtractionStep)
    requires
        since < usize::MAX,
    ensures
        s == extraction_step(role@ == "user"@, enabled, extract_every, since as nat),
{
    let is_user = chars_eq_str(chars_of(role).as_slice(), "user");
    if !is_user || !enabled {
        return ExtractionStep::Skip;
    }
    let every: usize = if extract_every < 1 {
        1
    } else {
        extract_every as usize
    };
    let count = since + 1;
    if count < every {
        ExtractionStep::Count(count)
    } else {
        ExtractionStep::Extract
    }
}

/// The extraction frequency a setting keeps: between 1 and 100 messages.
pub fn extract_every_setting(v: u32) -> (r: u32)
    ensures
        r == (if v < 1 {
            1
        } else if v > 100 {
            100
        } else {
            v
        }),
{
    if v < 1 {
        1
    } else if v > 100 {
        100
    } else {
        v
    }
}

fn validation(message: &str, field: &str) -> (e: AppError)
    ensures
        e matches AppError::Validation { message: m, field: f } && m@ == message@ && f@ == field@,
{
    AppError::Validation {
        message: string_of(chars_of(message).as_slice()),
        field: string_of(chars_of(field).as_slice()),
    }
}

/// Whether `e` is the validation error with this message and field.
pub open spec fn is_validation(e: AppError, message: Seq<char>, field: Seq<char>) -> bool {
    e matches AppError::Validation { message: m, field: f } && m@ == message && f@ == field
}

/// Whether `p` has the fields and models of `q`.
pub open spec fn is_copy_of(p: LlmProviderConfig, q: LlmProviderConfig) -> bool {
    p.id == q.id && p.name == q.name && p.preset == q.preset && p.kind == q.kind && p.base_url
        == q.base_url && p.api_version == q.api_version && p.models@ == q.models@ && p.has_api_key
        == q.has_api_key
}

/// What an extraction on request needs, checked in order: memory on, a
/// default model, its provider, and that provider's API key (given as
/// `api_key`); gives the provider and key.
pub fn extraction_requirements(
    enabled: bool,
    config: &LlmConfig,
    api_key: Option<String>,
) -> (r: Result<(LlmProviderConfig, String), AppError>)
    ensures
        !enabled ==> r is Err && is_validation(r->Err_0, "memory feature is disabled"@, "memory"@),
        enabled && config.default_model is None ==> r is Err && is_validation(
            r->Err_0,
            "no default model configured"@,
            "defaultModel"@,
        ),
        enabled && config.default_model is Some && provider_index(
            config.providers@,
            config.default_model->Some_0.provider_id@,
        ) is None ==> r is Err && is_validation(
            r->Err_0,
            "default provider not found"@,
            "defaultModel"@,
        ),
        enabled && config.default_model is Some && provider_index(
            config.providers@,
            config.default_model->Some_0.provider_id@,
        ) is Some && api_key is None ==> r is Err && is_validation(
            r->Err_0,
            "API key is not configured for the default provider"@,
            "apiKey"@,
        ),
        r matches Ok((p, k)) ==> enabled && config.default_model is Some && api_key == Some(k)
            && exists|j: int|
            provider_index(config.providers@, config.default_model->Some_0.provider_id@) == Some(j)
                && is_copy_of(p, config.providers@[j]),
{
    if !enabled {
        return Err(validation("memory feature is disabled", "memory"));
    }
    let default_ref = match &config.default_model {
        None => return Err(validation("no default model configured", "defaultModel")),
        Some(d) => d,
    };
    let provider = match config.provider(default_ref.provider_id.as_str()) {
        None => return Err(validation("default provider not found", "defaultModel")),
        Some(p) => copy_provider(p),
    };
    match api_key {
        None => Err(validation("API key is not configured for the default provider", "apiKey")),
        Some(k) => Ok((provider, k)),
    }
}

/// What an extraction on request needs (see `extraction_requirements`),
/// with the API key read from the credential store.
pub fn extraction_target(
    manager: &LlmConfigManager,
    enabled: bool,
    config: &LlmConfig,
) -> (r: Result<(LlmProviderConfig, String), AppError>)
    ensures
        !enabled ==> r is Err && is_validation(r->Err_0, "memory feature is disabled"@, "memory"@),
        enabled && config.default_model is None ==> r is Err && is_validation(
            r->Err_0,
            "no default model configured"@,
            "defaultModel"@,
        ),
{
    let key = match &config.default_model {
        Some(d) => if enabled {
            manager.load_api_key(d.provider_id.as_str())
        } else {
            None
        },
        None => None,
    };
    extraction_requirements(enabled, config, key)
}

/// When a message is recorded: its own time if it has one (positive),
/// else now.
pub fn message_time(created_at: i64, now: i64) -> (t: i64)
    ensures
        t == (if created_at > 0 {
            created_at
        } else {
            now
        }),
{
    if created_at > 0 {
        created_at
    } else {
        now
    }
}

/// The title a conversation gets from a new message: an untitled
/// conversation takes the first 30 characters of its first user message;
/// `None` leaves the title as it is.
pub open spec fn auto_title(title: Seq<char>, is_user: bool, content: Seq<char>) -> Option<Seq<char>> {
    if title.len() == 0 && is_user {
        Some(
            if content.len() <= AUTO_TITLE_CHARS {
                content
            } else {
                content.take(AUTO_TITLE_CHARS as int)
            },
        )
    } else {
        None
    }
}

/// The title a conversation gets from a new message (see `auto_title`).
pub fn title_from_message(title: &str, role: &str, content: &str) -> (r: Option<String>)
    ensures
        match r {
            Some(t) => auto_title(title@, role@ == "user"@, content@) == Some(t@),
            None => auto_title(title@, role@ == "user"@, content@) is None,
        },
{
    let t = chars_of(title);
    let is_user = chars_eq_str(chars_of(role).as_slice(), "user");
    if t.len() == 0 && is_user {
        let c = chars_of(content);
        if c.len() <= AUTO_TITLE_CHARS {
            Some(string_of(c.as_slice()))
        } else {
            let mut v: Vec<char> = Vec::new();
            let mut i: usize = 0;
            while i < AUTO_TITLE_CHARS
                invariant
                    i <= AUTO_TITLE_CHARS < c.len(),
                    v@ == c@.take(i as int),
                decreases AUTO_TITLE_CHARS - i,
            {
                v.push(c[i]);
                proof {
                    assert(c@.take(i + 1) =~= c@.take(i as int).push(c@[i as int]));
                }
                i = i + 1;
            }
            Some(string_of(v.as_slice()))
        }
    } else {
        None
    }
}

} // verus!
