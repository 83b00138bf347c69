//! Meeting transcript export: WebVTT captions (and already-decoded Teams
//! transcript JSON entries) turned into `[hh:mm:ss] Speaker: text` lines.

use vstd::prelude::*;
use crate::text::{
    chars_of, extend_chars, find_chars, first_occurrence, join, join_chars, slice_chars,
    split_char, split_chars, string_of, trim, trim_char, trim_char_chars, trim_chars, trim_end,
    trim_end_chars, chars_eq, contains_seq, is_ws, trim_start,
    trim_char_start, trim_char_start_chars, trim_start_chars,
};

verus! {

/// One flattened cue: normalized start timestamp, optional speaker, text.
pub type CueView = (Seq<char>, Option<Seq<char>>, Seq<char>);

/// A cue as handled by the executable code.
pub struct CueChars {
    pub start: Vec<char>,
    pub speaker: Option<Vec<char>>,
    pub text: Vec<char>,
}

impl CueChars {
    pub open spec fn view_cue(&self) -> CueView {
        (self.start@, opt_view(self.speaker), self.text@)
    }
}

pub open spec fn opt_view(o: Option<Vec<char>>) -> Option<Seq<char>> {
    match o {
        Some(v) => Some(v@),
        None => None,
    }
}

pub open spec fn opt_string_view(o: Option<String>) -> Option<Seq<char>> {
    match o {
        Some(v) => Some(v@),
        None => None,
    }
}

pub open spec fn cues_view(cues: Seq<CueChars>) -> Seq<CueView> {
    cues.map_values(|c: CueChars| c.view_cue())
}

// ───────────────────────── timestamps ─────────────────────────

/// The part of `s` before the first `.` or `,` (the fractional seconds).
pub open spec fn before_fraction(s: Seq<char>) -> Seq<char>
    decreases s.len(),
{
    if s.len() == 0 || s[0] == '.' || s[0] == ',' {
        Seq::empty()
    } else {
        seq![s[0]] + before_fraction(s.drop_first())
    }
}

/// The pieces of `parts` that are not empty, in order.
pub open spec fn non_empty(parts: Seq<Seq<char>>) -> Seq<Seq<char>>
    decreases parts.len(),
{
    if parts.len() == 0 {
        parts
    } else {
        let r = non_empty(parts.drop_last());
        if parts.last().len() > 0 {
            r.push(parts.last())
        } else {
            r
        }
    }
}

/// `p` left-padded with `0` to two characters.
pub open spec fn pad2(p: Seq<char>) -> Seq<char> {
    if p.len() >= 2 {
        p
    } else {
        Seq::new((2 - p.len()) as nat, |_i: int| '0') + p
    }
}

/// The clock fields of a timestamp, left-filled with `"0"` up to three.
pub open spec fn clock_fields(raw: Seq<char>) -> Seq<Seq<char>> {
    let parts = non_empty(split_char(before_fraction(trim(raw)), ':'));
    if parts.len() < 3 {
        Seq::new((3 - parts.len()) as nat, |_i: int| seq!['0']) + parts
    } else {
        parts
    }
}

/// `"00:05:12.340"` / `"05:12.340"` normalized to `"[00:05:12]"`: the last
/// three clock fields, each padded to two digits.
pub open spec fn cue_timestamp(raw: Seq<char>) -> Seq<char> {
    let f = clock_fields(raw);
    let n = f.len();
    seq!['['] + pad2(f[n - 3]) + seq![':'] + pad2(f[n - 2]) + seq![':'] + pad2(f[n - 1]) + seq![
        ']',
    ]
}

fn before_fraction_chars(v: &[char]) -> (out: Vec<char>)
    ensures
        out@ == before_fraction(v@),
{
    let mut i: usize = 0;
    proof {
        assert(v@.subrange(0, v.len() as int) =~= v@);
        assert(v@.subrange(0, 0) + v@ =~= v@);
    }
    while i < v.len() && v[i] != '.' && v[i] != ','
        invariant
            i <= v.len(),
            before_fraction(v@) == v@.subrange(0, i as int) + before_fraction(
                v@.subrange(i as int, v.len() as int),
            ),
        decreases v.len() - i,
    {
        let ghost rest = v@.subrange(i as int, v.len() as int);
        assert(rest.drop_first() =~= v@.subrange(i + 1, v.len() as int));
        assert(v@.subrange(0, i as int) + seq![v@[i as int]] =~= v@.subrange(0, i + 1));
        assert(v@.subrange(0, i as int) + (seq![rest[0]] + before_fraction(rest.drop_first()))
            =~= v@.subrange(0, i + 1) + before_fraction(rest.drop_first()));
        i = i + 1;
    }
    proof {
        let rest = v@.subrange(i as int, v.len() as int);
        assert(before_fraction(rest) =~= Seq::<char>::empty());
        assert(v@.subrange(0, i as int) + Seq::<char>::empty() =~= v@.subrange(0, i as int));
    }
    slice_chars(v, 0, i)
}

/// The pieces of `parts` that are not empty.
pub fn non_empty_parts(parts: Vec<Vec<char>>) -> (out: Vec<Vec<char>>)
    ensures
        out.deep_view() == non_empty(parts.deep_view()),
{
    let mut out: Vec<Vec<char>> = Vec::new();
    let mut i: usize = 0;
    let ghost pv = parts.deep_view();
    let mut parts = parts;
    proof {
        assert(pv.take(0) =~= Seq::<Seq<char>>::empty());
        assert(out.deep_view() =~= Seq::<Seq<char>>::empty());
    }
    while i < parts.len()
        invariant
            i <= parts.len(),
            parts.deep_view() == pv,
            out.deep_view() == non_empty(pv.take(i as int)),
        decreases parts.len() - i,
    {
        proof {
            assert(pv.take(i + 1).drop_last() =~= pv.take(i as int));
            assert(pv.take(i + 1).last() == pv[i as int]);
            assert(pv[i as int] =~= parts[i as int]@);
        }
        if parts[i].len() > 0 {
            let p = slice_chars(parts[i].as_slice(), 0, parts[i].len());
            let ghost before = out.deep_view();
            proof {
                assert(p@ =~= parts[i as int]@);
                assert(p.deep_view() =~= p@);
            }
            out.push(p);
            proof {
                assert(out.deep_view() =~= before.push(pv[i as int]));
            }
        }
        i = i + 1;
    }
    proof {
        assert(pv.take(parts.len() as int) =~= pv);
    }
    out
}

/// Index `k` of `f`, or `"0"` where the three-field window reaches before it.
fn field_or_zero(parts: &Vec<Vec<char>>, back: usize) -> (out: Vec<char>)
    requires
        1 <= back <= 3,
    ensures
        ({
            let pv = parts.deep_view();
            let padded = if pv.len() < 3 {
                Seq::new((3 - pv.len()) as nat, |_i: int| seq!['0']) + pv
            } else {
                pv
            };
            out@ == padded[padded.len() - back]
        }),
{
    let ghost pv = parts.deep_view();
    if parts.len() >= back {
        let k = parts.len() - back;
        proof {
            if pv.len() < 3 {
                let padded = Seq::new((3 - pv.len()) as nat, |_i: int| seq!['0']) + pv;
                assert(padded[padded.len() - back] == pv[k as int]);
            }
            assert(pv[k as int] =~= parts[k as int]@);
        }
        slice_chars(parts[k].as_slice(), 0, parts[k].len())
    } else {
        let mut z: Vec<char> = Vec::new();
        z.push('0');
        proof {
            let padded = Seq::new((3 - pv.len()) as nat, |_i: int| seq!['0']) + pv;
            assert(padded[padded.len() - back] == seq!['0']);
            assert(z@ =~= seq!['0']);
        }
        z
    }
}

fn pad2_chars(p: Vec<char>) -> (out: Vec<char>)
    ensures
        out@ == pad2(p@),
{
    if p.len() >= 2 {
        p
    } else {
        let mut out: Vec<char> = Vec::new();
        if p.len() == 0 {
            out.push('0');
            out.push('0');
        } else {
            out.push('0');
            out.push(p[0]);
        }
        proof {
            assert(out@ =~= Seq::new((2 - p@.len()) as nat, |_i: int| '0') + p@);
        }
        out
    }
}

/// Normalize a VTT cue timestamp (`"00:05:12.340"` / `"05:12.340"`) to
/// `"[00:05:12]"`.
pub fn format_cue_timestamp_chars(raw: &[char]) -> (out: Vec<char>)
    ensures
        out@ == cue_timestamp(raw@),
{
    let t = trim_chars(raw);
    let main = before_fraction_chars(t.as_slice());
    let pieces = split_chars(main.as_slice(), ':');
    let parts = non_empty_parts(pieces);
    let a = pad2_chars(field_or_zero(&parts, 3));
    let b = pad2_chars(field_or_zero(&parts, 2));
    let c = pad2_chars(field_or_zero(&parts, 1));
    let mut out: Vec<char> = Vec::new();
    out.push('[');
    extend_chars(&mut out, a.as_slice());
    out.push(':');
    extend_chars(&mut out, b.as_slice());
    out.push(':');
    extend_chars(&mut out, c.as_slice());
    out.push(']');
    proof {
        let f = clock_fields(raw@);
        assert(f.len() >= 3);
        assert(out@ =~= cue_timestamp(raw@));
    }
    out
}

/// Normalize a VTT cue timestamp (`"00:05:12.340"` / `"05:12.340"`) to
/// `"[00:05:12]"`.
pub fn format_cue_timestamp(raw: &str) -> (out: String)
    ensures
        out@ == cue_timestamp(raw@),
{
    let v = chars_of(raw);
    let r = format_cue_timestamp_chars(v.as_slice());
    string_of(r.as_slice())
}

// ───────────────────────── caption text ─────────────────────────

/// `s` with VTT inline markup removed, given the current `<`…`>` nesting
/// depth: text inside tags is dropped, `>` closes one level (never below 0).
pub open spec fn strip_tags_from(s: Seq<char>, depth: nat) -> Seq<char>
    decreases s.len(),
{
    if s.len() == 0 {
        Seq::empty()
    } else {
        let c = s[0];
        let rest = s.drop_first();
        if c == '<' {
            strip_tags_from(rest, depth + 1)
        } else if c == '>' {
            strip_tags_from(rest, if depth > 0 { (depth - 1) as nat } else { 0 })
        } else if depth == 0 {
            seq![c] + strip_tags_from(rest, 0)
        } else {
            strip_tags_from(rest, depth)
        }
    }
}

/// A caption line without its VTT markup (voice spans, classes, timing tags).
pub open spec fn strip_vtt_tags(s: Seq<char>) -> Seq<char> {
    strip_tags_from(s, 0)
}

/// Remove VTT inline markup from a cue text line.
pub fn strip_vtt_tags_chars(line: &[char]) -> (out: Vec<char>)
    ensures
        out@ == strip_vtt_tags(line@),
{
    let mut out: Vec<char> = Vec::new();
    let mut depth: usize = 0;
    let mut i: usize = 0;
    proof {
        assert(line@.subrange(0, line.len() as int) =~= line@);
    }
    while i < line.len()
        invariant
            i <= line.len(),
            depth <= i,
            out@ + strip_tags_from(line@.subrange(i as int, line.len() as int), depth as nat)
                == strip_vtt_tags(line@),
        decreases line.len() - i,
    {
        let ghost rest = line@.subrange(i as int, line.len() as int);
        let ghost old_out = out@;
        proof {
            assert(rest.drop_first() =~= line@.subrange(i + 1, line.len() as int));
            assert(rest[0] == line@[i as int]);
        }
        let c = line[i];
        if c == '<' {
            depth = depth + 1;
        } else if c == '>' {
            if depth > 0 {
                depth = depth - 1;
            }
        } else if depth == 0 {
            out.push(c);
            proof {
                assert(old_out + (seq![c] + strip_tags_from(rest.drop_first(), 0)) =~= out@
                    + strip_tags_from(rest.drop_first(), 0));
            }
        }
        i = i + 1;
    }
    proof {
        assert(line@.subrange(i as int, line.len() as int) =~= Seq::<char>::empty());
        assert(out@ + Seq::<char>::empty() =~= out@);
    }
    out
}

/// Remove VTT inline markup (voice spans `<v Name>`, color/class spans, word
/// timing tags) from a cue text line.
pub fn strip_vtt_tags_str(line: &str) -> (out: String)
    ensures
        out@ == strip_vtt_tags(line@),
{
    let v = chars_of(line);
    let r = strip_vtt_tags_chars(v.as_slice());
    string_of(r.as_slice())
}

/// `["John Doe"]` / `[John Doe]` unwrapped to `John Doe`; other names are
/// only trimmed.
pub open spec fn unbracket(name: Seq<char>) -> Seq<char> {
    let t = trim(name);
    if t.len() >= 2 && t[0] == '[' && t.last() == ']' {
        trim(trim_char(t.subrange(1, t.len() - 1), '"'))
    } else {
        t
    }
}

/// Unwrap bracketed speaker forms like `["John Doe"]` / `[John Doe]`.
pub fn unbracket_speaker_chars(name: &[char]) -> (out: Vec<char>)
    ensures
        out@ == unbracket(name@),
{
    let t = trim_chars(name);
    if t.len() >= 2 && t[0] == '[' && t[t.len() - 1] == ']' {
        let inner = slice_chars(t.as_slice(), 1, t.len() - 1);
        let unq = trim_char_chars(inner.as_slice(), '"');
        trim_chars(unq.as_slice())
    } else {
        t
    }
}

/// Unwrap bracketed speaker forms like `["John Doe"]` / `[John Doe]`.
pub fn unbracket_speaker(name: &str) -> (out: String)
    ensures
        out@ == unbracket(name@),
{
    let v = chars_of(name);
    let r = unbracket_speaker_chars(v.as_slice());
    string_of(r.as_slice())
}

/// Number of occurrences of `c` in `s`.
pub open spec fn count_char(s: Seq<char>, c: char) -> nat
    decreases s.len(),
{
    if s.len() == 0 {
        0
    } else {
        count_char(s.drop_last(), c) + if s.last() == c { 1nat } else { 0nat }
    }
}

/// Number of space-separated pieces of a non-empty `prefix` (`split(' ').count()`).
pub open spec fn word_count(prefix: Seq<char>) -> nat {
    if prefix.len() == 0 {
        0
    } else {
        count_char(prefix, ' ') + 1
    }
}

/// Whether a non-empty `prefix` has one to four space-separated pieces.
fn plausible_name_prefix(prefix: &[char]) -> (r: bool)
    ensures
        r == (1 <= word_count(prefix@) && word_count(prefix@) <= 4),
{
    if prefix.len() == 0 {
        return false;
    }
    let mut n: usize = 0;
    let mut i: usize = 0;
    while i < prefix.len()
        invariant
            i <= prefix.len(),
            n == count_char(prefix@.take(i as int), ' '),
            n <= 3,
        decreases prefix.len() - i,
    {
        proof {
            assert(prefix@.take(i + 1).drop_last() =~= prefix@.take(i as int));
        }
        if prefix[i] == ' ' {
            if n == 3 {
                proof {
                    lemma_count_char_prefix(prefix@, i + 1);
                }
                return false;
            }
            n = n + 1;
        }
        i = i + 1;
    }
    proof {
        assert(prefix@.take(prefix.len() as int) =~= prefix@);
    }
    true
}

proof fn lemma_count_char_prefix(s: Seq<char>, k: int)
    requires
        0 <= k <= s.len(),
    ensures
        count_char(s.take(k), ' ') <= count_char(s, ' '),
    decreases s.len() - k,
{
    if k < s.len() {
        lemma_count_char_prefix(s, k + 1);
        assert(s.take(k + 1).drop_last() =~= s.take(k));
    } else {
        assert(s.take(k) =~= s);
    }
}

/// `(speaker, text)` of a cue's caption lines. Teams puts the speaker on its
/// own line before the utterance; a single line may carry a `Speaker: text`
/// prefix of one to four words instead.
pub open spec fn cue_speaker(lines: Seq<Seq<char>>) -> (Option<Seq<char>>, Seq<char>) {
    if lines.len() == 0 {
        (None, Seq::empty())
    } else if lines.len() >= 2 {
        (
            Some(unbracket(lines[0])),
            join(
                non_empty(lines.subrange(1, lines.len() as int).map_values(|l: Seq<char>| trim(l))),
                seq![' '],
            ),
        )
    } else {
        let t = trim(strip_vtt_tags(lines[0]));
        match first_occurrence(t, seq![':', ' ']) {
            Some(k) => {
                let prefix = trim(t.subrange(0, k));
                let rest = trim(t.subrange(k + 2, t.len() as int));
                let wc = word_count(prefix);
                if rest.len() > 0 && 1 <= wc && wc <= 4 {
                    (Some(unbracket(prefix)), rest)
                } else {
                    (None, t)
                }
            },
            None => (None, t),
        }
    }
}

/// Split a cue's text lines into (speaker, text).
pub fn split_cue_speaker_chars(lines: &Vec<Vec<char>>) -> (out: (Option<Vec<char>>, Vec<char>))
    ensures
        (opt_view(out.0), out.1@) == cue_speaker(lines.deep_view()),
{
    let ghost lv = lines.deep_view();
    if lines.len() == 0 {
        return (None, Vec::new());
    }
    if lines.len() >= 2 {
        let speaker = unbracket_speaker_chars(lines[0].as_slice());
        let mut trimmed: Vec<Vec<char>> = Vec::new();
        let mut i: usize = 1;
        proof {
            assert(lines[0]@ =~= lv[0]);
            assert(trimmed.deep_view() =~= lv.subrange(1, 1).map_values(|l: Seq<char>| trim(l)));
        }
        while i < lines.len()
            invariant
                1 <= i <= lines.len(),
                lv == lines.deep_view(),
                trimmed.deep_view() == lv.subrange(1, i as int).map_values(
                    |l: Seq<char>| trim(l),
                ),
            decreases lines.len() - i,
        {
            let t = trim_chars(lines[i].as_slice());
            let ghost before = trimmed.deep_view();
            proof {
                assert(lines[i as int]@ =~= lv[i as int]);
                assert(t.deep_view() =~= t@);
            }
            trimmed.push(t);
            proof {
                assert(trimmed.deep_view() =~= before.push(trim(lv[i as int])));
                assert(lv.subrange(1, i + 1).map_values(|l: Seq<char>| trim(l)) =~= lv.subrange(
                    1,
                    i as int,
                ).map_values(|l: Seq<char>| trim(l)).push(trim(lv[i as int])));
            }
            i = i + 1;
        }
        let kept = non_empty_parts(trimmed);
        let mut sp: Vec<char> = Vec::new();
        sp.push(' ');
        proof {
            assert(sp@ =~= seq![' ']);
        }
        let text = join_chars(&kept, sp.as_slice());
        return (Some(speaker), text);
    }
    let line = strip_vtt_tags_chars(lines[0].as_slice());
    let t = trim_chars(line.as_slice());
    proof {
        assert(lines[0]@ =~= lv[0]);
    }
    let mut pat: Vec<char> = Vec::new();
    pat.push(':');
    pat.push(' ');
    proof {
        assert(pat@ =~= seq![':', ' ']);
    }
    match find_chars(t.as_slice(), pat.as_slice()) {
        Some(k) => {
            let pre = slice_chars(t.as_slice(), 0, k);
            let prefix = trim_chars(pre.as_slice());
            let post = slice_chars(t.as_slice(), k + 2, t.len());
            let rest = trim_chars(post.as_slice());
            let plausible = plausible_name_prefix(prefix.as_slice());
            if rest.len() > 0 && plausible {
                let who = unbracket_speaker_chars(prefix.as_slice());
                (Some(who), rest)
            } else {
                (None, t)
            }
        },
        None => (None, t),
    }
}

/// Split a cue's text lines into (speaker, text).
pub fn split_cue_speaker(lines: &[String]) -> (out: (Option<String>, String))
    ensures
        (opt_string_view(out.0), out.1@) == cue_speaker(lines@.map_values(|l: String| l@)),
{
    let mut vs: Vec<Vec<char>> = Vec::new();
    let mut i: usize = 0;
    while i < lines.len()
        invariant
            i <= lines.len(),
            vs.deep_view() == lines@.map_values(|l: String| l@).take(i as int),
        decreases lines.len() - i,
    {
        let c = chars_of(lines[i].as_str());
        let ghost before = vs.deep_view();
        proof {
            assert(c.deep_view() =~= c@);
        }
        vs.push(c);
        proof {
            assert(vs.deep_view() =~= before.push(lines@[i as int]@));
            assert(lines@.map_values(|l: String| l@).take(i + 1) =~= lines@.map_values(
                |l: String| l@,
            ).take(i as int).push(lines@[i as int]@));
        }
        i = i + 1;
    }
    proof {
        assert(lines@.map_values(|l: String| l@).take(lines.len() as int) =~= lines@.map_values(
            |l: String| l@,
        ));
    }
    let (sp, tx) = split_cue_speaker_chars(&vs);
    let speaker = match sp {
        Some(s) => Some(string_of(s.as_slice())),
        None => None,
    };
    (speaker, string_of(tx.as_slice()))
}

// ───────────────────────── cue assembly ─────────────────────────

/// Cues collected so far, the pending cue's start, and its caption lines.
pub type VttState = (Seq<CueView>, Option<Seq<char>>, Seq<Seq<char>>);

/// Finalize the cue being accumulated, if any (its lines are consumed).
pub open spec fn flush_cue(cues: Seq<CueView>, start: Option<Seq<char>>, lines: Seq<Seq<char>>) -> Seq<
    CueView,
> {
    match start {
        Some(st) => {
            let sp = cue_speaker(lines);
            cues.push((st, sp.0, sp.1))
        },
        None => cues,
    }
}

/// `-->`, the separator of a cue timing line.
pub open spec fn arrow() -> Seq<char> {
    seq!['-', '-', '>']
}

/// One line of a VTT document applied to the cue state: a blank line closes
/// the pending cue, a timing line opens one, caption lines of an open cue
/// are collected (header, `NOTE` and `STYLE` lines before any timing line
/// are skipped).
pub open spec fn vtt_step(st: VttState, raw: Seq<char>) -> VttState {
    let line = trim_end(raw);
    if trim(line).len() == 0 {
        (flush_cue(st.0, st.1, st.2), None, Seq::empty())
    } else {
        match first_occurrence(line, arrow()) {
            Some(idx) => (st.0, Some(cue_timestamp(trim(line.subrange(0, idx)))), st.2),
            None => {
                if st.1 is None {
                    st
                } else {
                    let cleaned = strip_vtt_tags(line);
                    if trim(cleaned).len() > 0 {
                        (st.0, st.1, st.2.push(cleaned))
                    } else {
                        st
                    }
                }
            },
        }
    }
}

/// The cue state after the given lines.
pub open spec fn vtt_fold(lines: Seq<Seq<char>>) -> VttState
    decreases lines.len(),
{
    if lines.len() == 0 {
        (Seq::empty(), None, Seq::empty())
    } else {
        vtt_step(vtt_fold(lines.drop_last()), lines.last())
    }
}

/// The lines of `s` (`str::lines`, up to a trailing `\r` per line, which the
/// VTT reader trims anyway): the pieces between `\n`, without the empty
/// piece after a final line ending.
pub open spec fn text_lines(s: Seq<char>) -> Seq<Seq<char>> {
    let parts = split_char(s, '\n');
    if parts.len() > 0 && parts.last().len() == 0 {
        parts.drop_last()
    } else {
        parts
    }
}

/// The cues of a VTT document.
pub open spec fn vtt_cues(s: Seq<char>) -> Seq<CueView> {
    let st = vtt_fold(text_lines(s));
    flush_cue(st.0, st.1, st.2)
}

/// Script lines so far and the speaker of the last line written.
pub type RenderState = (Seq<Seq<char>>, Option<Seq<char>>);

/// One cue rendered: empty cues are skipped, a cue by the speaker of the
/// previous line is appended to that line, any other cue starts a line
/// `start speaker: text` (or `start text` without a speaker).
pub open spec fn render_step(st: RenderState, cue: CueView) -> RenderState {
    let start = cue.0;
    let speaker = cue.1;
    let text = cue.2;
    if text.len() == 0 {
        st
    } else if speaker is Some && speaker == st.1 && st.0.len() > 0 {
        (st.0.update(st.0.len() - 1, st.0.last() + seq![' '] + text), st.1)
    } else {
        let line = match speaker {
            Some(sp) => start + seq![' '] + sp + seq![':', ' '] + text,
            None => start + seq![' '] + text,
        };
        (st.0.push(line), speaker)
    }
}

pub open spec fn render_fold(cues: Seq<CueView>) -> RenderState
    decreases cues.len(),
{
    if cues.len() == 0 {
        (Seq::empty(), None)
    } else {
        render_step(render_fold(cues.drop_last()), cues.last())
    }
}

/// Script lines of a cue list, consecutive cues of one speaker merged.
pub open spec fn script_lines(cues: Seq<CueView>) -> Seq<Seq<char>> {
    render_fold(cues).0
}

/// The speaker of the last cue with text, if any (`None` also when that
/// cue has no speaker).
pub open spec fn last_speaker_of(cues: Seq<CueView>) -> Option<Seq<char>>
    decreases cues.len(),
{
    if cues.len() == 0 {
        None
    } else if cues.last().2.len() == 0 {
        last_speaker_of(cues.drop_last())
    } else {
        cues.last().1
    }
}

/// How many cues have text.
pub open spec fn spoken_count(cues: Seq<CueView>) -> nat
    decreases cues.len(),
{
    if cues.len() == 0 {
        0
    } else {
        spoken_count(cues.drop_last()) + if cues.last().2.len() > 0 { 1nat } else { 0nat }
    }
}

/// How many cues have text and no speaker.
pub open spec fn unattributed_count(cues: Seq<CueView>) -> nat
    decreases cues.len(),
{
    if cues.len() == 0 {
        0
    } else {
        unattributed_count(cues.drop_last()) + if cues.last().2.len() > 0 && cues.last().1 is None {
            1nat
        } else {
            0nat
        }
    }
}

proof fn lemma_render_state(cues: Seq<CueView>)
    ensures
        render_fold(cues).1 == last_speaker_of(cues),
        render_fold(cues).0.len() == 0 ==> spoken_count(cues) == 0,
        unattributed_count(cues) <= render_fold(cues).0.len() <= spoken_count(cues),
    decreases cues.len(),
{
    if cues.len() > 0 {
        lemma_render_state(cues.drop_last());
    }
}

/// How a cue adds to the script, stated against the cues before it:
/// - a cue without text adds nothing;
/// - a cue without a speaker always starts a line of its own,
///   `start text`;
/// - a cue whose speaker is that of the last cue with text is appended,
///   after a space, to the last line;
/// - a cue with any other speaker starts a line `start speaker: text`.
/// Cues are therefore merged only when both carry the same speaker.
pub proof fn lemma_script_grows_by_cue(cues: Seq<CueView>, cue: CueView)
    ensures
        ({
            let before = script_lines(cues);
            let after = script_lines(cues.push(cue));
            &&& cue.2.len() == 0 ==> after == before
            &&& cue.2.len() > 0 && cue.1 is None ==> after == before.push(cue.0 + seq![' '] + cue.2)
            &&& cue.2.len() > 0 && cue.1 is Some && cue.1 == last_speaker_of(cues) ==> after
                == before.update(before.len() - 1, before.last() + seq![' '] + cue.2)
                && before.len() > 0
            &&& cue.2.len() > 0 && cue.1 is Some && cue.1 != last_speaker_of(cues) ==> after
                == before.push(cue.0 + seq![' '] + cue.1->0 + seq![':', ' '] + cue.2)
        }),
{
    lemma_render_state(cues);
    assert(cues.push(cue).drop_last() =~= cues);
    if cue.2.len() > 0 && cue.1 is Some && cue.1 == last_speaker_of(cues) {
        assert(last_speaker_of(cues) is Some);
        assert(spoken_count(cues) > 0) by {
            lemma_last_speaker_spoken(cues);
        }
    }
}

proof fn lemma_last_speaker_spoken(cues: Seq<CueView>)
    ensures
        last_speaker_of(cues) is Some ==> spoken_count(cues) > 0,
    decreases cues.len(),
{
    if cues.len() > 0 {
        lemma_last_speaker_spoken(cues.drop_last());
    }
}

/// The script has a line for every cue with text and no speaker, and no
/// more lines than cues with text.
pub proof fn lemma_script_line_count(cues: Seq<CueView>)
    ensures
        unattributed_count(cues) <= script_lines(cues).len() <= spoken_count(cues),
{
    lemma_render_state(cues);
}

/// Script lines of a VTT document.
pub open spec fn vtt_script(s: Seq<char>) -> Seq<Seq<char>> {
    script_lines(vtt_cues(s))
}

/// The lines of `v` (see `text_lines`).
pub fn text_lines_chars(v: &[char]) -> (out: Vec<Vec<char>>)
    ensures
        out.deep_view() == text_lines(v@),
{
    let mut parts = split_chars(v, '\n');
    let n = parts.len();
    if n > 0 && parts[n - 1].len() == 0 {
        let ghost before = parts.deep_view();
        parts.pop();
        proof {
            assert(parts.deep_view() =~= before.drop_last());
        }
    }
    parts
}

fn option_chars_eq(a: &Option<Vec<char>>, b: &Option<Vec<char>>) -> (r: bool)
    ensures
        r == (opt_view(*a) == opt_view(*b)),
{
    match (a, b) {
        (Some(x), Some(y)) => chars_eq(x.as_slice(), y.as_slice()),
        (None, None) => true,
        _ => false,
    }
}

fn clone_chars(v: &Vec<char>) -> (out: Vec<char>)
    ensures
        out@ == v@,
{
    slice_chars(v.as_slice(), 0, v.len())
}

fn clone_opt_chars(o: &Option<Vec<char>>) -> (out: Option<Vec<char>>)
    ensures
        opt_view(out) == opt_view(*o),
{
    match o {
        Some(v) => Some(clone_chars(v)),
        None => None,
    }
}

/// Finalize the cue being accumulated, if any.
fn push_cue(cues: &mut Vec<CueChars>, start: &mut Option<Vec<char>>, lines: &mut Vec<Vec<char>>)
    ensures
        cues_view(final(cues)@) == flush_cue(cues_view(old(cues)@), opt_view(*old(start)), old(lines).deep_view()),
        *final(start) is None,
        final(lines)@.len() == 0,
{
    let mut taken: Option<Vec<char>> = None;
    std::mem::swap(&mut taken, start);
    match taken {
        Some(st) => {
            let (speaker, text) = split_cue_speaker_chars(lines);
            let ghost before = cues@;
            cues.push(CueChars { start: st, speaker, text });
            proof {
                assert(cues_view(cues@) =~= cues_view(before).push(cues@.last().view_cue()));
            }
        },
        None => {},
    }
    lines.clear();
}

/// The cues of a VTT document.
pub fn vtt_cues_chars(vtt: &[char]) -> (out: Vec<CueChars>)
    ensures
        cues_view(out@) == vtt_cues(vtt@),
{
    let lines = text_lines_chars(vtt);
    let ghost lv = lines.deep_view();
    let mut cues: Vec<CueChars> = Vec::new();
    let mut cue_start: Option<Vec<char>> = None;
    let mut cue_lines: Vec<Vec<char>> = Vec::new();
    let mut arrow_v: Vec<char> = Vec::new();
    arrow_v.push('-');
    arrow_v.push('-');
    arrow_v.push('>');
    proof {
        assert(arrow_v@ =~= arrow());
        assert(lv.take(0) =~= Seq::<Seq<char>>::empty());
        assert(cues_view(cues@) =~= Seq::<CueView>::empty());
        assert(cue_lines.deep_view() =~= Seq::<Seq<char>>::empty());
    }
    let mut i: usize = 0;
    while i < lines.len()
        invariant
            i <= lines.len(),
            lv == lines.deep_view(),
            arrow_v@ == arrow(),
            (cues_view(cues@), opt_view(cue_start), cue_lines.deep_view()) == vtt_fold(
                lv.take(i as int),
            ),
        decreases lines.len() - i,
    {
        let ghost st = vtt_fold(lv.take(i as int));
        proof {
            assert(lv.take(i + 1).drop_last() =~= lv.take(i as int));
            assert(lv.take(i + 1).last() == lv[i as int]);
            assert(lines[i as int]@ =~= lv[i as int]);
        }
        let line = trim_end_chars(lines[i].as_slice());
        let whole = trim_chars(line.as_slice());
        if whole.len() == 0 {
            push_cue(&mut cues, &mut cue_start, &mut cue_lines);
            proof {
                assert(cue_lines.deep_view() =~= Seq::<Seq<char>>::empty());
            }
        } else {
            match find_chars(line.as_slice(), arrow_v.as_slice()) {
                Some(idx) => {
                    let head = slice_chars(line.as_slice(), 0, idx);
                    let head_t = trim_chars(head.as_slice());
                    cue_start = Some(format_cue_timestamp_chars(head_t.as_slice()));
                },
                None => {
                    if cue_start.is_some() {
                        let cleaned = strip_vtt_tags_chars(line.as_slice());
                        let ct = trim_chars(cleaned.as_slice());
                        if ct.len() > 0 {
                            let ghost before = cue_lines.deep_view();
                            proof {
                                assert(cleaned.deep_view() =~= cleaned@);
                            }
                            cue_lines.push(cleaned);
                            proof {
                                assert(cue_lines.deep_view() =~= before.push(strip_vtt_tags(
                                    trim_end(lv[i as int]),
                                )));
                            }
                        }
                    }
                },
            }
        }
        i = i + 1;
    }
    proof {
        assert(lv.take(lines.len() as int) =~= lv);
    }
    push_cue(&mut cues, &mut cue_start, &mut cue_lines);
    cues
}

/// Flatten cues into script lines, merging consecutive cues by the same
/// speaker into one line.
pub fn render_script_lines_chars(cues: Vec<CueChars>) -> (out: Vec<Vec<char>>)
    ensures
        out.deep_view() == script_lines(cues_view(cues@)),
{
    let ghost cv = cues_view(cues@);
    let mut out: Vec<Vec<char>> = Vec::new();
    let mut last_speaker: Option<Vec<char>> = None;
    let mut i: usize = 0;
    proof {
        assert(cv.take(0) =~= Seq::<CueView>::empty());
        assert(out.deep_view() =~= Seq::<Seq<char>>::empty());
    }
    while i < cues.len()
        invariant
            i <= cues.len(),
            cv == cues_view(cues@),
            (out.deep_view(), opt_view(last_speaker)) == render_fold(cv.take(i as int)),
        decreases cues.len() - i,
    {
        let ghost st = render_fold(cv.take(i as int));
        proof {
            assert(cv.take(i + 1).drop_last() =~= cv.take(i as int));
            assert(cv.take(i + 1).last() == cues@[i as int].view_cue());
        }
        let cue = &cues[i];
        if cue.text.len() == 0 {
        } else if cue.speaker.is_some() && option_chars_eq(&cue.speaker, &last_speaker) && out.len()
            > 0 {
            let k = out.len() - 1;
            let ghost before = out.deep_view();
            let mut prev = clone_chars(&out[k]);
            prev.push(' ');
            extend_chars(&mut prev, cue.text.as_slice());
            proof {
                assert(out[k as int]@ =~= before[k as int]);
                assert(prev@ =~= before.last() + seq![' '] + cue.text@);
                assert(prev.deep_view() =~= prev@);
            }
            out.set(k, prev);
            proof {
                assert(out.deep_view() =~= before.update(k as int, before.last() + seq![' ']
                    + cue.text@));
            }
        } else {
            let mut line = clone_chars(&cue.start);
            line.push(' ');
            match &cue.speaker {
                Some(sp) => {
                    extend_chars(&mut line, sp.as_slice());
                    line.push(':');
                    line.push(' ');
                    extend_chars(&mut line, cue.text.as_slice());
                },
                None => {
                    extend_chars(&mut line, cue.text.as_slice());
                },
            }
            let ghost before = out.deep_view();
            proof {
                assert(line.deep_view() =~= line@);
                if cue.speaker is Some {
                    let sp = cue.speaker->0;
                    assert(line@ =~= cue.start@ + seq![' '] + sp@ + seq![':', ' '] + cue.text@);
                } else {
                    assert(line@ =~= cue.start@ + seq![' '] + cue.text@);
                }
            }
            out.push(line);
            last_speaker = clone_opt_chars(&cue.speaker);
            proof {
                assert(out.deep_view() =~= before.push(render_step(st, cv[i as int]).0.last()));
            }
        }
        i = i + 1;
    }
    proof {
        assert(cv.take(cues.len() as int) =~= cv);
    }
    out
}

/// The strings spelled by `v`.
pub fn strings_of(v: &Vec<Vec<char>>) -> (out: Vec<String>)
    ensures
        out.deep_view() == v.deep_view(),
{
    let mut out: Vec<String> = Vec::new();
    let mut i: usize = 0;
    while i < v.len()
        invariant
            i <= v.len(),
            out.deep_view() == v.deep_view().take(i as int),
        decreases v.len() - i,
    {
        let s = string_of(v[i].as_slice());
        let ghost before = out.deep_view();
        let ghost sv = s@;
        out.push(s);
        proof {
            assert(out.deep_view() =~= before.push(sv));
            assert(v[i as int]@ =~= v.deep_view()[i as int]);
            assert(out.deep_view() =~= v.deep_view().take(i + 1));
        }
        i = i + 1;
    }
    proof {
        assert(v.deep_view().take(v.len() as int) =~= v.deep_view());
    }
    out
}

/// Convert a Teams meeting transcript VTT into plain-text script lines:
/// `[hh:mm:ss] Speaker: text`, merging consecutive cues by the same speaker
/// into one line. Metadata (`WEBVTT`, `Kind:`, `Language:`) and
/// `NOTE`/`STYLE` blocks are dropped.
pub fn vtt_to_script_lines(vtt: &str) -> (out: Vec<String>)
    ensures
        out.deep_view() == vtt_script(vtt@),
{
    let v = chars_of(vtt);
    let cues = vtt_cues_chars(v.as_slice());
    let lines = render_script_lines_chars(cues);
    strings_of(&lines)
}

// ───────────────────────── Teams transcript JSON ─────────────────────────

/// One entry of the Teams transcript JSON, as decoded by the caller.
/// `start_seconds` carries the whole seconds of `start_offset` when that
/// offset is a plain (non-negative, finite) number of seconds.
pub struct TranscriptEntry {
    pub start_offset: Option<String>,
    pub start_seconds: Option<u64>,
    pub speaker_display_name: Option<String>,
    pub text: Option<String>,
}

/// Decimal digits of `n`.
pub open spec fn decimal(n: nat) -> Seq<char>
    decreases n,
{
    if n < 10 {
        seq![digit_char(n)]
    } else {
        decimal(n / 10).push(digit_char(n % 10))
    }
}

pub open spec fn digit_char(d: nat) -> char {
    if d == 0 { '0' } else if d == 1 { '1' } else if d == 2 { '2' } else if d == 3 { '3' }
    else if d == 4 { '4' } else if d == 5 { '5' } else if d == 6 { '6' } else if d == 7 { '7' }
    else if d == 8 { '8' } else { '9' }
}

fn digit(d: u64) -> (c: char)
    requires
        d < 10,
    ensures
        c == digit_char(d as nat),
{
    if d == 0 { '0' } else if d == 1 { '1' } else if d == 2 { '2' } else if d == 3 { '3' }
    else if d == 4 { '4' } else if d == 5 { '5' } else if d == 6 { '6' } else if d == 7 { '7' }
    else if d == 8 { '8' } else { '9' }
}

/// Decimal digits of `n`.
pub fn decimal_chars(n: u64) -> (out: Vec<char>)
    ensures
        out@ == decimal(n as nat),
    decreases n,
{
    if n < 10 {
        let mut v: Vec<char> = Vec::new();
        v.push(digit(n));
        proof {
            assert(v@ =~= seq![digit_char(n as nat)]);
        }
        v
    } else {
        let mut v = decimal_chars(n / 10);
        v.push(digit(n % 10));
        v
    }
}

/// `[hh:mm:ss]` for a whole number of seconds (hours are not capped).
pub open spec fn clock_label(total: nat) -> Seq<char> {
    seq!['['] + pad2(decimal(total / 3600)) + seq![':'] + pad2(decimal((total % 3600) / 60))
        + seq![':'] + pad2(decimal(total % 60)) + seq![']']
}

/// `[hh:mm:ss]` for a whole number of seconds.
pub fn format_clock_seconds(total: u64) -> (out: String)
    ensures
        out@ == clock_label(total as nat),
{
    let h = pad2_chars(decimal_chars(total / 3600));
    let m = pad2_chars(decimal_chars((total % 3600) / 60));
    let sec = pad2_chars(decimal_chars(total % 60));
    let mut out: Vec<char> = Vec::new();
    out.push('[');
    extend_chars(&mut out, h.as_slice());
    out.push(':');
    extend_chars(&mut out, m.as_slice());
    out.push(':');
    extend_chars(&mut out, sec.as_slice());
    out.push(']');
    proof {
        assert(out@ =~= clock_label(total as nat));
    }
    string_of(out.as_slice())
}

/// The label of a transcript time offset: clock offsets (`HH:MM:SS[.fff]`)
/// are normalized like cue timestamps; otherwise the offset is a number of
/// seconds, whose whole part `seconds` holds, or it is unusable.
pub open spec fn offset_label(raw: Seq<char>, seconds: Option<u64>) -> Option<Seq<char>> {
    let t = trim(raw);
    if contains_seq(t, seq![':']) {
        Some(cue_timestamp(t))
    } else {
        match seconds {
            Some(s) => Some(clock_label(s as nat)),
            None => None,
        }
    }
}

/// Parse a transcript time offset (`"HH:MM:SS[.fff]"` or raw seconds) into
/// `"[hh:mm:ss]"`. `seconds` is the whole part of `raw` read as a
/// non-negative finite number of seconds, `None` when it is not one.
pub fn parse_time_offset(raw: &str, seconds: Option<u64>) -> (out: Option<String>)
    ensures
        opt_string_view(out) == offset_label(raw@, seconds),
{
    let v = chars_of(raw);
    let t = trim_chars(v.as_slice());
    let mut colon: Vec<char> = Vec::new();
    colon.push(':');
    proof {
        assert(colon@ =~= seq![':']);
    }
    if find_chars(t.as_slice(), colon.as_slice()).is_some() {
        let r = format_cue_timestamp_chars(t.as_slice());
        proof {
            lemma_trim_idempotent(v@);
        }
        Some(string_of(r.as_slice()))
    } else {
        match seconds {
            Some(s) => Some(format_clock_seconds(s)),
            None => None,
        }
    }
}

proof fn lemma_trim_start_idem(s: Seq<char>)
    ensures
        trim_start(trim_start(s)) == trim_start(s),
    decreases s.len(),
{
    if s.len() > 0 && is_ws(s[0]) {
        lemma_trim_start_idem(s.drop_first());
    }
}

proof fn lemma_trim_end_idem(s: Seq<char>)
    ensures
        trim_end(trim_end(s)) == trim_end(s),
    decreases s.len(),
{
    if s.len() > 0 && is_ws(s.last()) {
        lemma_trim_end_idem(s.drop_last());
    }
}

proof fn lemma_trim_start_len(s: Seq<char>)
    ensures
        trim_start(s).len() <= s.len(),
        s.len() > 0 && is_ws(s[0]) ==> trim_start(s).len() < s.len(),
    decreases s.len(),
{
    if s.len() > 0 && is_ws(s[0]) {
        lemma_trim_start_len(s.drop_first());
    }
}

proof fn lemma_trim_end_keeps_start(s: Seq<char>)
    requires
        trim_start(s) == s,
    ensures
        trim_start(trim_end(s)) == trim_end(s),
    decreases s.len(),
{
    lemma_trim_start_len(s);
    if s.len() > 0 && is_ws(s.last()) {
        if s.len() == 1 {
            assert(is_ws(s[0]));
        } else {
            assert(s.drop_last()[0] == s[0]);
            lemma_trim_end_keeps_start(s.drop_last());
        }
    }
}

/// Trimming twice is trimming once.
pub proof fn lemma_trim_idempotent(s: Seq<char>)
    ensures
        trim(trim(s)) == trim(s),
{
    let a = trim_start(s);
    lemma_trim_start_idem(s);
    lemma_trim_end_keeps_start(a);
    lemma_trim_end_idem(a);
}

/// The cue of one transcript entry: entries without (non-blank) text are
/// dropped; the start label is empty when the offset is missing or
/// unusable; blank speaker names count as no speaker.
pub open spec fn entry_cue(e: (Option<Seq<char>>, Option<u64>, Option<Seq<char>>, Option<Seq<char>>)) -> Option<CueView> {
    match e.3 {
        None => None,
        Some(text) => {
            let t = trim(text);
            if t.len() == 0 {
                None
            } else {
                let start = match e.0 {
                    Some(off) => match offset_label(off, e.1) {
                        Some(l) => l,
                        None => Seq::empty(),
                    },
                    None => Seq::empty(),
                };
                let speaker = match e.2 {
                    Some(sp) => if trim(sp).len() > 0 { Some(sp) } else { None },
                    None => None,
                };
                Some((start, speaker, t))
            }
        },
    }
}

pub open spec fn entry_view(e: TranscriptEntry) -> (Option<Seq<char>>, Option<u64>, Option<Seq<char>>, Option<Seq<char>>) {
    (opt_string_view(e.start_offset), e.start_seconds, opt_string_view(e.speaker_display_name), opt_string_view(e.text))
}

/// The cues of a decoded transcript, in entry order.
pub open spec fn entries_cues(entries: Seq<TranscriptEntry>) -> Seq<CueView>
    decreases entries.len(),
{
    if entries.len() == 0 {
        Seq::empty()
    } else {
        let r = entries_cues(entries.drop_last());
        match entry_cue(entry_view(entries.last())) {
            Some(c) => r.push(c),
            None => r,
        }
    }
}

fn chars_of_opt(o: &Option<String>) -> (out: Option<Vec<char>>)
    ensures
        opt_view(out) == opt_string_view(*o),
{
    match o {
        Some(s) => Some(chars_of(s.as_str())),
        None => None,
    }
}

/// Convert decoded Teams transcript JSON entries into cues.
pub fn json_transcript_to_cues(entries: &Vec<TranscriptEntry>) -> (out: Vec<CueChars>)
    ensures
        cues_view(out@) == entries_cues(entries@),
{
    let mut out: Vec<CueChars> = Vec::new();
    let mut i: usize = 0;
    proof {
        assert(entries@.take(0) =~= Seq::<TranscriptEntry>::empty());
        assert(cues_view(out@) =~= Seq::<CueView>::empty());
    }
    while i < entries.len()
        invariant
            i <= entries.len(),
            cues_view(out@) == entries_cues(entries@.take(i as int)),
        decreases entries.len() - i,
    {
        proof {
            assert(entries@.take(i + 1).drop_last() =~= entries@.take(i as int));
            assert(entries@.take(i + 1).last() == entries@[i as int]);
        }
        let e = &entries[i];
        match &e.text {
            None => {},
            Some(text) => {
                let tv = chars_of(text.as_str());
                let t = trim_chars(tv.as_slice());
                if t.len() > 0 {
                    let start: Vec<char> = match &e.start_offset {
                        Some(off) => match parse_time_offset(off.as_str(), e.start_seconds) {
                            Some(l) => chars_of(l.as_str()),
                            None => Vec::new(),
                        },
                        None => Vec::new(),
                    };
                    let speaker: Option<Vec<char>> = match &e.speaker_display_name {
                        Some(sp) => {
                            let spv = chars_of(sp.as_str());
                            let spt = trim_chars(spv.as_slice());
                            if spt.len() > 0 {
                                Some(spv)
                            } else {
                                None
                            }
                        },
                        None => None,
                    };
                    let ghost before = out@;
                    out.push(CueChars { start, speaker, text: t });
                    proof {
                        assert(cues_view(out@) =~= cues_view(before).push(out@.last().view_cue()));
                    }
                }
            },
        }
        i = i + 1;
    }
    proof {
        assert(entries@.take(entries.len() as int) =~= entries@);
    }
    out
}

/// The text a transcript payload starts with once a byte-order mark and
/// leading white space are skipped.
pub open spec fn payload_start(text: Seq<char>) -> Seq<char> {
    trim_start(trim_char_start(text, '\u{feff}'))
}

/// The payload to decode as Teams transcript JSON: the trimmed text when it
/// starts with `{`.
pub open spec fn json_candidate(text: Seq<char>) -> Option<Seq<char>> {
    let t = payload_start(text);
    if t.len() > 0 && t[0] == '{' {
        Some(t)
    } else {
        None
    }
}

/// Script lines of a captured transcript payload. `json_entries` is the
/// decoding of `json_candidate(text)` as Teams transcript JSON (`None` when
/// there is no candidate or it does not decode): when it yields lines they
/// are the result, otherwise the payload is read as VTT.
pub open spec fn transcript_script(text: Seq<char>, json_entries: Option<Seq<TranscriptEntry>>) -> Seq<Seq<char>> {
    let from_json = match json_entries {
        Some(es) => if json_candidate(text) is Some { script_lines(entries_cues(es)) } else { Seq::empty() },
        None => Seq::empty(),
    };
    if from_json.len() > 0 {
        from_json
    } else {
        vtt_script(text)
    }
}

/// The part of a transcript payload to decode as Teams transcript JSON, if
/// any (see `json_candidate`).
pub fn transcript_json_candidate(text: &str) -> (out: Option<String>)
    ensures
        opt_string_view(out) == json_candidate(text@),
{
    let v = chars_of(text);
    let no_bom = trim_char_start_chars(v.as_slice(), '\u{feff}');
    let t = trim_start_chars(no_bom.as_slice());
    if t.len() > 0 && t[0] == '{' {
        Some(string_of(t.as_slice()))
    } else {
        None
    }
}

/// Convert a captured transcript payload — VTT or Teams transcript JSON —
/// into plain-text script lines (see `transcript_script`).
pub fn transcript_to_script_lines(text: &str, json_entries: Option<Vec<TranscriptEntry>>) -> (out: Vec<String>)
    ensures
        out.deep_view() == transcript_script(
            text@,
            match json_entries {
                Some(es) => Some(es@),
                None => None,
            },
        ),
{
    let candidate = transcript_json_candidate(text);
    if candidate.is_some() {
        if let Some(entries) = json_entries {
            let cues = json_transcript_to_cues(&entries);
            let lines = render_script_lines_chars(cues);
            if lines.len() > 0 {
                return strings_of(&lines);
            }
        }
    }
    vtt_to_script_lines(text)
}

} // verus!
