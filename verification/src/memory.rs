//! Long-term memory for the assistant: which memories fit the prompt
//! budget, and how the model's extraction output is located and cleaned.

use vstd::prelude::*;
use crate::text::{chars_of, find_char, slice_chars, string_of, trim, trim_chars};

verus! {

/// Most memories injected into a prompt.
pub const MEMORY_MAX_ITEMS: usize = 20;

/// Most characters of memory injected into a prompt (with the `- ` prefix
/// and newline of each entry).
pub const MEMORY_MAX_CHARS: usize = 2000;

/// Instructions for the model that distills memories from a conversation.
pub const EXTRACTION_SYSTEM_PROMPT: &'static str = r#"You maintain long-term memory for a desktop AI file-manager assistant. Given the existing memories and a recent conversation window, output the updated memory list.

Rules:
- Keep only durable facts about the user: work context, preferences, recurring file locations, explicit standing instructions. Drop chit-chat and one-off questions.
- Merge duplicates, keeping the richer phrasing. On conflict, prefer the newer conversation.
- At most 20 items. Each item is one short sentence, in the same language as the conversation.
- Never store credentials, passwords, or API keys.

Respond with strict JSON only, no markdown fences, no commentary: {"memories": ["..."]}"#;

/// Selection state: what was chosen, the characters used, and whether the
/// budget stopped the selection.
pub open spec fn select_step(
    st: (Seq<Seq<char>>, nat, bool),
    c: Seq<char>,
    max_items: nat,
    max_chars: nat,
) -> (Seq<Seq<char>>, nat, bool) {
    let (sel, used, stopped) = st;
    let cost = c.len() + 3;
    if stopped {
        st
    } else if sel.len() >= max_items {
        (sel, used, true)
    } else if sel.len() == 0 && cost > max_chars {
        let budget: nat = if max_chars >= 4 {
            (max_chars - 3) as nat
        } else {
            1
        };
        (sel.push(c.take(if budget <= c.len() { budget as int } else { c.len() as int })), max_chars, false)
    } else if used + cost > max_chars {
        (sel, used, true)
    } else {
        (sel.push(c), used + cost, false)
    }
}

pub open spec fn select_fold(contents: Seq<Seq<char>>, max_items: nat, max_chars: nat) -> (Seq<Seq<char>>, nat, bool)
    decreases contents.len(),
{
    if contents.len() == 0 {
        (Seq::empty(), 0, false)
    } else {
        select_step(select_fold(contents.drop_last(), max_items, max_chars), contents.last(), max_items, max_chars)
    }
}

/// Memories chosen for the prompt, in the given (pinned-first, most
/// recent) order: entries are taken while they fit at most `max_items`
/// entries and `max_chars` characters (each costing its length plus 3); a
/// first entry that alone exceeds the budget is truncated to fit.
pub open spec fn selected_memories(contents: Seq<Seq<char>>, max_items: nat, max_chars: nat) -> Seq<Seq<char>> {
    select_fold(contents, max_items, max_chars).0
}

/// Total prompt cost of chosen memories.
pub open spec fn memory_cost(sel: Seq<Seq<char>>) -> nat
    decreases sel.len(),
{
    if sel.len() == 0 {
        0
    } else {
        memory_cost(sel.drop_last()) + sel.last().len() + 3
    }
}

proof fn lemma_select_fold_budget(contents: Seq<Seq<char>>, max_items: nat, max_chars: nat)
    requires
        max_chars >= 4,
    ensures
        ({
            let (sel, used, _) = select_fold(contents, max_items, max_chars);
            &&& sel.len() <= max_items
            &&& memory_cost(sel) <= used <= max_chars
        }),
    decreases contents.len(),
{
    if contents.len() > 0 {
        lemma_select_fold_budget(contents.drop_last(), max_items, max_chars);
        let (sel, used, stopped) = select_fold(contents.drop_last(), max_items, max_chars);
        let c = contents.last();
        let next = select_step((sel, used, stopped), c, max_items, max_chars);
        if !stopped && sel.len() < max_items {
            if sel.len() == 0 && c.len() + 3 > max_chars {
                let t = c.take(if max_chars - 3 <= c.len() { (max_chars - 3) as int } else { c.len() as int });
                assert(sel.push(t).drop_last() =~= sel);
                assert(memory_cost(sel) == 0);
            } else if used + c.len() + 3 <= max_chars {
                assert(sel.push(c).drop_last() =~= sel);
            }
        }
    }
}

/// The selection never exceeds its budget: at most `max_items` memories,
/// and at most `max_chars` characters in all (for budgets of at least four
/// characters, the smallest that fits one character of a memory).
pub proof fn lemma_selection_respects_budget(contents: Seq<Seq<char>>, max_items: nat, max_chars: nat)
    requires
        max_chars >= 4,
    ensures
        selected_memories(contents, max_items, max_chars).len() <= max_items,
        memory_cost(selected_memories(contents, max_items, max_chars)) <= max_chars,
{
    lemma_select_fold_budget(contents, max_items, max_chars);
}

/// The views of a list of strings.
pub open spec fn texts(v: Seq<String>) -> Seq<Seq<char>> {
    v.map_values(|s: String| s@)
}

/// Selects memories for prompt injection (see `selected_memories`).
pub fn select_memories_for_prompt(contents: Vec<String>, max_items: usize, max_chars: usize) -> (out: Vec<String>)
    ensures
        texts(out@) == selected_memories(texts(contents@), max_items as nat, max_chars as nat),
{
    let ghost all = texts(contents@);
    let mut selected: Vec<String> = Vec::new();
    let mut used: usize = 0;
    let mut i: usize = 0;
    let mut stopped = false;
    while i < contents.len()
        invariant
            i <= contents@.len(),
            all == texts(contents@),
            used <= max_chars,
            (texts(selected@), used as nat, stopped) == select_fold(all.take(i as int), max_items as nat, max_chars as nat),
        decreases contents.len() - i,
    {
        proof {
            assert(all.take(i + 1).drop_last() =~= all.take(i as int));
            assert(all.take(i + 1).last() == contents@[i as int]@);
        }
        let ghost s0 = texts(selected@);
        if !stopped {
            if selected.len() >= max_items {
                stopped = true;
            } else {
                let chars = chars_of(contents[i].as_str());
                let count = chars.len();
                let over_first = selected.len() == 0 && (count > max_chars || max_chars - count < 3);
                if over_first {
                    let budget: usize = if max_chars >= 4 {
                        max_chars - 3
                    } else {
                        1
                    };
                    let end = if budget <= count { budget } else { count };
                    let piece = slice_chars(chars.as_slice(), 0, end);
                    selected.push(string_of(piece.as_slice()));
                    proof {
                        assert(piece@ =~= contents@[i as int]@.take(end as int));
                        assert(texts(selected@) =~= s0.push(contents@[i as int]@.take(end as int)));
                    }
                    used = max_chars;
                } else if count > max_chars - used || max_chars - used - count < 3 {
                    stopped = true;
                } else {
                    used = used + count + 3;
                    selected.push(contents[i].clone());
                    proof {
                        assert(texts(selected@) =~= s0.push(contents@[i as int]@));
                    }
                }
            }
        }
        i = i + 1;
    }
    proof {
        assert(all.take(all.len() as int) =~= all);
    }
    selected
}

// ── Extraction output ───────────────────────────────────────────────────

/// Scan state inside a JSON object: brace depth, inside a string, after a
/// backslash in a string.
pub open spec fn scan_step(st: (nat, bool, bool), c: char) -> (nat, bool, bool) {
    let (depth, in_string, escaped) = st;
    if in_string {
        if escaped {
            (depth, true, false)
        } else if c == '\\' {
            (depth, true, true)
        } else if c == '"' {
            (depth, false, false)
        } else {
            st
        }
    } else if c == '"' {
        (depth, true, false)
    } else if c == '{' {
        (depth + 1, false, false)
    } else if c == '}' {
        ((if depth > 0 { depth - 1 } else { 0 }) as nat, false, false)
    } else {
        st
    }
}

pub open spec fn scan_fold(s: Seq<char>) -> (nat, bool, bool)
    decreases s.len(),
{
    if s.len() == 0 {
        (0, false, false)
    } else {
        scan_step(scan_fold(s.drop_last()), s.last())
    }
}

/// The scan closes the object at a `}` that brings the depth to zero.
pub open spec fn closes_at(s: Seq<char>, k: int) -> bool {
    0 <= k < s.len() && !scan_fold(s.take(k)).1 && s[k] == '}' && scan_fold(s.take(k + 1)).0 == 0
}

/// The first position at or after `j` where the scan closes the object.
pub open spec fn first_close_from(s: Seq<char>, j: int) -> Option<int>
    decreases s.len() - j,
{
    if j < 0 || j >= s.len() {
        None
    } else if closes_at(s, j) {
        Some(j)
    } else {
        first_close_from(s, j + 1)
    }
}

/// The first balanced JSON object of `raw` (string-aware brace scan from
/// the first `{`), so code fences or chatty text around it are tolerated.
pub open spec fn first_json_object(raw: Seq<char>) -> Option<Seq<char>> {
    match crate::text::first_index_of(raw, '{') {
        None => None,
        Some(start) => {
            let s = raw.subrange(start, raw.len() as int);
            match first_close_from(s, 0) {
                Some(k) => Some(s.take(k + 1)),
                None => None,
            }
        },
    }
}

/// Finds the first balanced JSON object in `raw` (see `first_json_object`).
pub fn extract_json_object(raw: &str) -> (r: Option<String>)
    ensures
        opt_text(r) == first_json_object(raw@),
{
    let v = chars_of(raw);
    let start = match find_char(v.as_slice(), '{') {
        Some(i) => i,
        None => return None,
    };
    let s = slice_chars(v.as_slice(), start, v.len());
    let ghost sv = s@;
    let mut depth: usize = 0;
    let mut in_string = false;
    let mut escaped = false;
    let mut k: usize = 0;
    while k < s.len()
        invariant
            k <= s@.len(),
            sv == s@,
            v@ == raw@,
            start < v@.len(),
            crate::text::first_index_of(raw@, '{') == Some(start as int),
            sv == raw@.subrange(start as int, raw@.len() as int),
            depth <= k,
            escaped ==> in_string,
            (depth as nat, in_string, escaped) == scan_fold(sv.take(k as int)),
            first_close_from(sv, 0) == first_close_from(sv, k as int),
        decreases s.len() - k,
    {
        let c = s[k];
        proof {
            assert(sv.take(k + 1).drop_last() =~= sv.take(k as int));
            assert(sv.take(k + 1).last() == c);
        }
        if in_string {
            if escaped {
                escaped = false;
            } else if c == '\\' {
                escaped = true;
            } else if c == '"' {
                in_string = false;
            }
        } else if c == '"' {
            in_string = true;
        } else if c == '{' {
            depth = depth + 1;
        } else if c == '}' {
            depth = if depth > 0 { depth - 1 } else { 0 };
            if depth == 0 {
                let out = slice_chars(s.as_slice(), 0, k + 1);
                proof {
                    assert(closes_at(sv, k as int));
                    assert(first_close_from(sv, k as int) == Some(k as int));
                    assert(out@ =~= sv.take(k + 1));
                }
                return Some(string_of(out.as_slice()));
            }
        }
        proof {
            assert(!closes_at(sv, k as int));
            assert(first_close_from(sv, k as int) == first_close_from(sv, k + 1));
        }
        k = k + 1;
    }
    None
}

pub open spec fn opt_text(o: Option<String>) -> Option<Seq<char>> {
    match o {
        Some(s) => Some(s@),
        None => None,
    }
}

/// Extracted memories, trimmed, without blank ones; none when nothing is
/// left (an empty list signals "no update").
pub open spec fn cleaned_memories(raw: Seq<Seq<char>>) -> Option<Seq<Seq<char>>> {
    let kept = raw.map_values(|m: Seq<char>| trim(m)).filter(|m: Seq<char>| m.len() > 0);
    if kept.len() == 0 {
        None
    } else {
        Some(kept)
    }
}

/// Cleans the memory list decoded from the model's output (see
/// `cleaned_memories`).
pub fn clean_memories(memories: Vec<String>) -> (r: Option<Vec<String>>)
    ensures
        match r {
            Some(v) => cleaned_memories(texts(memories@)) == Some(texts(v@)),
            None => cleaned_memories(texts(memories@)) is None,
        },
{
    let ghost f = |m: Seq<char>| m.len() > 0;
    let ghost trimmed = texts(memories@).map_values(|m: Seq<char>| trim(m));
    let mut out: Vec<String> = Vec::new();
    let mut i: usize = 0;
    while i < memories.len()
        invariant
            i <= memories@.len(),
            f == (|m: Seq<char>| m.len() > 0),
            trimmed == texts(memories@).map_values(|m: Seq<char>| trim(m)),
            texts(out@) == trimmed.take(i as int).filter(f),
        decreases memories.len() - i,
    {
        let v = chars_of(memories[i].as_str());
        let t = trim_chars(v.as_slice());
        let ghost before = texts(out@);
        proof {
            reveal(Seq::filter);
            assert(trimmed.take(i + 1).drop_last() =~= trimmed.take(i as int));
            assert(trimmed.take(i + 1).last() == t@);
        }
        if t.len() > 0 {
            out.push(string_of(t.as_slice()));
            proof {
                assert(texts(out@) =~= before.push(t@));
            }
        }
        i = i + 1;
    }
    proof {
        assert(trimmed.take(trimmed.len() as int) =~= trimmed);
    }
    if out.len() == 0 {
        None
    } else {
        Some(out)
    }
}

// ── Extraction request ──────────────────────────────────────────────────

/// A lowercase hexadecimal digit.
pub open spec fn hex_digit(n: int) -> char {
    if n < 10 {
        (48 + n) as char
    } else {
        (87 + n) as char
    }
}

/// How `serde_json` writes one character inside a string: `"` and `\`
/// behind a backslash, backspace, form feed, line feed, carriage return
/// and tab as `\b \f \n \r \t`, the other control characters below
/// U+0020 as `\u00` and two lowercase hex digits, anything else as it is.
pub open spec fn json_char(c: char) -> Seq<char> {
    if c == '"' {
        seq!['\\', '"']
    } else if c == '\\' {
        seq!['\\', '\\']
    } else if c == '\u{8}' {
        seq!['\\', 'b']
    } else if c == '\u{c}' {
        seq!['\\', 'f']
    } else if c == '\n' {
        seq!['\\', 'n']
    } else if c == '\r' {
        seq!['\\', 'r']
    } else if c == '\t' {
        seq!['\\', 't']
    } else if (c as int) < 0x20 {
        seq!['\\', 'u', '0', '0', hex_digit((c as int) / 16), hex_digit((c as int) % 16)]
    } else {
        seq![c]
    }
}

/// The characters of `s`, each written as `json_char` writes it.
pub open spec fn json_escaped(s: Seq<char>) -> Seq<char>
    decreases s.len(),
{
    if s.len() == 0 {
        Seq::empty()
    } else {
        json_escaped(s.drop_last()) + json_char(s.last())
    }
}

/// The JSON text `serde_json` writes for a string: the string in double
/// quotes, escaped (see `json_char`).
pub open spec fn json_string_literal(s: Seq<char>) -> Seq<char> {
    seq!['"'] + json_escaped(s) + seq!['"']
}

/// Calls `serde_json::to_string` on a string (which does not fail for a
/// string); its escape table is restated in `json_char`.
#[verifier::external_body]
fn json_quote(s: &str) -> (r: String)
    ensures
        r@ == json_string_literal(s@),
{
    match serde_json::to_string(s) {
        Ok(t) => t,
        Err(_) => String::new(),
    }
}

/// One message of the conversation window as a JSON object.
pub open spec fn message_json(role: Seq<char>, content: Seq<char>) -> Seq<char> {
    "{\"role\":"@ + json_string_literal(role) + ",\"content\":"@ + json_string_literal(content) + "}"@
}

/// The user turn of an extraction request: a JSON object with the
/// existing memories and the recent conversation.
pub open spec fn extraction_payload(existing: Seq<Seq<char>>, conversation: Seq<(Seq<char>, Seq<char>)>) -> Seq<char> {
    "{\"existingMemories\":["@ + crate::text::join(
        existing.map_values(|m: Seq<char>| json_string_literal(m)),
        ","@,
    ) + "],\"conversation\":["@ + crate::text::join(
        conversation.map_values(|m: (Seq<char>, Seq<char>)| message_json(m.0, m.1)),
        ","@,
    ) + "]}"@
}

/// The user turn of an extraction request (see `extraction_payload`).
pub fn extraction_user_payload(existing: &[String], conversation: &[crate::llm_client::LlmChatMessage]) -> (p: String)
    ensures
        p@ == extraction_payload(
            texts(existing@),
            conversation@.map_values(|m: crate::llm_client::LlmChatMessage| (m.role@, m.content@)),
        ),
{
    let ghost ev = texts(existing@);
    let mut quoted: Vec<Vec<char>> = Vec::new();
    let mut i: usize = 0;
    while i < existing.len()
        invariant
            i <= existing.len(),
            ev == texts(existing@),
            quoted.deep_view() == ev.take(i as int).map_values(|m: Seq<char>| json_string_literal(m)),
        decreases existing.len() - i,
    {
        let q = chars_of(json_quote(existing[i].as_str()).as_str());
        let ghost before = quoted.deep_view();
        proof {
            assert(q.deep_view() =~= q@);
        }
        quoted.push(q);
        proof {
            assert(quoted.deep_view() =~= before.push(json_string_literal(ev[i as int])));
            assert(ev.take(i + 1).map_values(|m: Seq<char>| json_string_literal(m)) =~= ev.take(
                i as int,
            ).map_values(|m: Seq<char>| json_string_literal(m)).push(json_string_literal(ev[i as int])));
        }
        i = i + 1;
    }
    proof {
        assert(ev.take(existing.len() as int) =~= ev);
    }
    let ghost cv = conversation@.map_values(|m: crate::llm_client::LlmChatMessage| (m.role@, m.content@));
    let mut msgs: Vec<Vec<char>> = Vec::new();
    let mut j: usize = 0;
    while j < conversation.len()
        invariant
            j <= conversation.len(),
            cv == conversation@.map_values(|m: crate::llm_client::LlmChatMessage| (m.role@, m.content@)),
            msgs.deep_view() == cv.take(j as int).map_values(|m: (Seq<char>, Seq<char>)| message_json(m.0, m.1)),
        decreases conversation.len() - j,
    {
        let mut o = chars_of("{\"role\":");
        crate::text::extend_str(&mut o, json_quote(conversation[j].role.as_str()).as_str());
        crate::text::extend_str(&mut o, ",\"content\":");
        crate::text::extend_str(&mut o, json_quote(conversation[j].content.as_str()).as_str());
        crate::text::extend_str(&mut o, "}");
        let ghost before = msgs.deep_view();
        proof {
            assert(o.deep_view() =~= o@);
            assert(cv[j as int] == (conversation@[j as int].role@, conversation@[j as int].content@));
        }
        msgs.push(o);
        proof {
            assert(msgs.deep_view() =~= before.push(message_json(cv[j as int].0, cv[j as int].1)));
            assert(cv.take(j + 1).map_values(|m: (Seq<char>, Seq<char>)| message_json(m.0, m.1))
                =~= cv.take(j as int).map_values(|m: (Seq<char>, Seq<char>)| message_json(m.0, m.1)).push(
                message_json(cv[j as int].0, cv[j as int].1),
            ));
        }
        j = j + 1;
    }
    proof {
        assert(cv.take(conversation.len() as int) =~= cv);
    }
    let comma = chars_of(",");
    let mut out = chars_of("{\"existingMemories\":[");
    let a = crate::text::join_chars(&quoted, comma.as_slice());
    crate::text::extend_chars(&mut out, a.as_slice());
    crate::text::extend_str(&mut out, "],\"conversation\":[");
    let b = crate::text::join_chars(&msgs, comma.as_slice());
    crate::text::extend_chars(&mut out, b.as_slice());
    crate::text::extend_str(&mut out, "]}");
    string_of(out.as_slice())
}

/// The messages of an extraction request: the extraction instructions as
/// the system turn, then the payload as the user turn.
pub fn extraction_messages(payload: String) -> (m: Vec<crate::llm_client::LlmChatMessage>)
    ensures
        m@.len() == 2,
        m@[0].role@ == "system"@,
        m@[0].content@ == EXTRACTION_SYSTEM_PROMPT@,
        m@[1].role@ == "user"@,
        m@[1].content@ == payload@,
{
    let mut m: Vec<crate::llm_client::LlmChatMessage> = Vec::new();
    m.push(crate::llm_client::LlmChatMessage { role: string_of(chars_of("system").as_slice()), content: string_of(chars_of(EXTRACTION_SYSTEM_PROMPT).as_slice()) });
    m.push(crate::llm_client::LlmChatMessage { role: string_of(chars_of("user").as_slice()), content: payload });
    m
}

} // verus!
