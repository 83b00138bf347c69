//! Teams meeting recordings: recognizing recording files and folders,
//! locating transcripts next to them, and ordering the aggregated list.

use vstd::prelude::*;
use crate::models::{DriveItem, MeetingRecording, RecordingSource, Site};
use crate::time::{parse_rfc3339_timestamp, rfc3339_timestamp};
use crate::order::{
    lemma_lex_asymmetric, lemma_lex_irreflexive, lemma_lex_total, lemma_lex_transitive, lex_less,
    lex_lt,
};
use crate::text::{
    chars_of, eq_ignore_ascii_case, eq_ignore_ascii_case_chars, extend_chars, find_chars,
    first_occurrence, has_prefix, last_index_of, lowercase_chars, rfind_char, slice_chars,
    split_char, split_chars, starts_with_chars, string_of, chars_eq, trim_char_end, trim_char_end_chars,
    unicode_lowercase,
};

verus! {

/// `name` without its final extension (`"a.b.mp4"` → `"a.b"`); names
/// without a dot are unchanged.
pub open spec fn base_name(name: Seq<char>) -> Seq<char> {
    match last_index_of(name, '.') {
        Some(i) => name.subrange(0, i),
        None => name,
    }
}

/// The extension after the final dot, if there is a dot.
pub open spec fn extension(name: Seq<char>) -> Option<Seq<char>> {
    match last_index_of(name, '.') {
        Some(i) => Some(name.subrange(i + 1, name.len() as int)),
        None => None,
    }
}

/// Strip the final file extension (`"a.b.mp4"` → `"a.b"`); names without a
/// dot are returned unchanged.
pub fn file_base_name(name: &str) -> (out: &str)
    ensures
        out@ == base_name(name@),
{
    let v = chars_of(name);
    match rfind_char(v.as_slice(), '.') {
        Some(i) => name.substring_char(0, i),
        None => name,
    }
}

/// Rank of `child_name` as the transcript of a recording whose lowercased
/// base name is `base_lower`: 0 for `{base}.vtt` (any case), 1 for a `.vtt`
/// whose lowercased base extends a non-empty `base_lower`, none otherwise.
pub open spec fn match_rank(child_name: Seq<char>, base_lower: Seq<char>) -> Option<u8> {
    match last_index_of(child_name, '.') {
        None => None,
        Some(i) => {
            let ext = child_name.subrange(i + 1, child_name.len() as int);
            if !eq_ignore_ascii_case(ext, seq!['v', 't', 't']) {
                None
            } else {
                let child_lower = unicode_lowercase(child_name.subrange(0, i));
                if child_lower == base_lower {
                    Some(0)
                } else if base_lower.len() > 0 && has_prefix(child_lower, base_lower) {
                    Some(1)
                } else {
                    None
                }
            }
        },
    }
}

/// Does `child_name` name the transcript of a recording whose base name is
/// `recording_base_lower` (already lowercased)? See `match_rank`.
pub fn transcript_match_rank(child_name: &str, recording_base_lower: &str) -> (r: Option<u8>)
    ensures
        r == match_rank(child_name@, recording_base_lower@),
{
    let v = chars_of(child_name);
    let i = match rfind_char(v.as_slice(), '.') {
        Some(i) => i,
        None => return None,
    };
    let ext = slice_chars(v.as_slice(), i + 1, v.len());
    let mut vtt: Vec<char> = Vec::new();
    vtt.push('v');
    vtt.push('t');
    vtt.push('t');
    proof {
        assert(vtt@ =~= seq!['v', 't', 't']);
    }
    if !eq_ignore_ascii_case_chars(ext.as_slice(), vtt.as_slice()) {
        return None;
    }
    let base = slice_chars(v.as_slice(), 0, i);
    let child_lower = lowercase_chars(base.as_slice());
    let base_lower = chars_of(recording_base_lower);
    if chars_eq(child_lower.as_slice(), base_lower.as_slice()) {
        Some(0)
    } else if base_lower.len() > 0 && starts_with_chars(child_lower.as_slice(), base_lower.as_slice()) {
        Some(1)
    } else {
        None
    }
}

/// Teams recordings are `.mp4` files (extension compared ignoring ASCII case).
pub open spec fn is_recording_video(name: Seq<char>) -> bool {
    match extension(name) {
        Some(ext) => eq_ignore_ascii_case(ext, seq!['m', 'p', '4']),
        None => false,
    }
}

/// Whether a file name looks like a meeting recording (video extension).
pub fn is_recording_video_name(name: &str) -> (r: bool)
    ensures
        r == is_recording_video(name@),
{
    let v = chars_of(name);
    match rfind_char(v.as_slice(), '.') {
        Some(i) => {
            let ext = slice_chars(v.as_slice(), i + 1, v.len());
            let mut mp4: Vec<char> = Vec::new();
            mp4.push('m');
            mp4.push('p');
            mp4.push('4');
            proof {
                assert(mp4@ =~= seq!['m', 'p', '4']);
            }
            eq_ignore_ascii_case_chars(ext.as_slice(), mp4.as_slice())
        },
        None => false,
    }
}

/// Localized spellings of the OneDrive recordings folder.
pub open spec fn recordings_folder_aliases() -> Seq<Seq<char>> {
    seq![
        "Recordings"@,
        "会议录制"@,
        "录制"@,
        "Grabaciones"@,
        "Enregistrements"@,
        "Aufzeichnungen"@,
        "Registrazioni"@,
        "Gravações"@,
        "録画"@,
        "녹화"@,
    ]
}

fn recordings_folder_alias_list() -> (v: Vec<&'static str>)
    ensures
        v@.map_values(|s: &str| s@) == recordings_folder_aliases(),
{
    let v = vec![
        "Recordings",
        "会议录制",
        "录制",
        "Grabaciones",
        "Enregistrements",
        "Aufzeichnungen",
        "Registrazioni",
        "Gravações",
        "録画",
        "녹화",
    ];
    proof {
        assert(v@.map_values(|s: &str| s@) =~= recordings_folder_aliases());
    }
    v
}

/// Whether `segment` names a recordings folder.
pub open spec fn is_recordings_segment(segment: Seq<char>) -> bool {
    segment.len() > 0 && exists|k: int|
        0 <= k < recordings_folder_aliases().len() && eq_ignore_ascii_case(
            segment,
            #[trigger] recordings_folder_aliases()[k],
        )
}

/// Whether a Graph parent path (e.g. `/drive/root:/Recordings/sub`) has a
/// segment that is a recordings-folder alias (ignoring ASCII case).
pub open spec fn points_to_recordings(path: Option<Seq<char>>) -> bool {
    match path {
        None => false,
        Some(p) => has_recordings_segment(split_char(p, '/')),
    }
}

/// Whether one of `segments` is a recordings-folder alias.
pub open spec fn has_recordings_segment(segments: Seq<Seq<char>>) -> bool {
    exists|j: int| 0 <= j < segments.len() && is_recordings_segment(#[trigger] segments[j])
}

fn is_recordings_segment_chars(seg: &Vec<char>, aliases: &Vec<&'static str>) -> (r: bool)
    requires
        aliases@.map_values(|s: &str| s@) == recordings_folder_aliases(),
    ensures
        r == is_recordings_segment(seg@),
{
    if seg.len() == 0 {
        return false;
    }
    let mut k: usize = 0;
    while k < aliases.len()
        invariant
            k <= aliases.len(),
            seg.len() > 0,
            aliases@.map_values(|s: &str| s@) == recordings_folder_aliases(),
            forall|m: int|
                0 <= m < k ==> !eq_ignore_ascii_case(seg@, recordings_folder_aliases()[m]),
        decreases aliases.len() - k,
    {
        let a = chars_of(aliases[k]);
        proof {
            assert(recordings_folder_aliases()[k as int] == aliases@[k as int]@);
        }
        if eq_ignore_ascii_case_chars(seg.as_slice(), a.as_slice()) {
            assert(eq_ignore_ascii_case(seg@, recordings_folder_aliases()[k as int]));
            return true;
        }
        k = k + 1;
    }
    false
}

/// Whether a name is one of the recordings-folder aliases, ignoring ASCII
/// case.
pub fn is_recordings_name(name: &str) -> (r: bool)
    ensures
        r == is_recordings_segment(name@),
{
    let v = chars_of(name);
    let aliases = recordings_folder_alias_list();
    is_recordings_segment_chars(&v, &aliases)
}

/// Whether a Graph parent path (e.g. `/drive/root:/Recordings/sub`) points
/// into a recordings folder, matching localized aliases ignoring ASCII case.
pub fn path_points_to_recordings_folder(path: Option<&String>) -> (r: bool)
    ensures
        r == (path is Some && points_to_recordings(Some(path->0@))),
{
    let p = match path {
        Some(p) => p,
        None => return false,
    };
    let v = chars_of(p.as_str());
    let segs = split_chars(v.as_slice(), '/');
    let aliases = recordings_folder_alias_list();
    let ghost sv = split_char(v@, '/');
    let mut j: usize = 0;
    while j < segs.len()
        invariant
            j <= segs.len(),
            segs.deep_view() == sv,
            sv == split_char(p@, '/'),
            path is Some && path->0 == p,
            aliases@.map_values(|s: &str| s@) == recordings_folder_aliases(),
            forall|m: int| 0 <= m < j ==> !is_recordings_segment(sv[m]),
        decreases segs.len() - j,
    {
        proof {
            assert(segs[j as int]@ =~= sv[j as int]);
        }
        if is_recordings_segment_chars(&segs[j], &aliases) {
            assert(is_recordings_segment(sv[j as int]));
            return true;
        }
        j = j + 1;
    }
    false
}

/// The drive-relative address (`root:/…`) of `file_name` inside the folder
/// described by a Graph `parentReference.path`: the part after the first
/// `root:` (trailing slashes removed; empty when there is no `root:`).
pub open spec fn path_under_parent(parent_path: Seq<char>, file_name: Seq<char>) -> Seq<char> {
    let marker = seq!['r', 'o', 'o', 't', ':'];
    let root_relative = match first_occurrence(parent_path, marker) {
        Some(k) => trim_char_end(parent_path.subrange(k + 5, parent_path.len() as int), '/'),
        None => Seq::empty(),
    };
    marker + root_relative + seq!['/'] + file_name
}

/// Build the drive-relative address (`root:/…`) for a file inside the folder
/// described by a Graph `parentReference.path` (`"/drive/root:/Recordings"`
/// for OneDrive, `"/drives/{id}/root:/General/Recordings"` for SharePoint).
pub fn item_path_under_parent(parent_path: &str, file_name: &str) -> (out: String)
    ensures
        out@ == path_under_parent(parent_path@, file_name@),
{
    let v = chars_of(parent_path);
    let mut marker: Vec<char> = Vec::new();
    marker.push('r');
    marker.push('o');
    marker.push('o');
    marker.push('t');
    marker.push(':');
    proof {
        assert(marker@ =~= seq!['r', 'o', 'o', 't', ':']);
    }
    let root_relative: Vec<char> = match find_chars(v.as_slice(), marker.as_slice()) {
        Some(k) => {
            let rest = slice_chars(v.as_slice(), k + 5, v.len());
            trim_char_end_chars(rest.as_slice(), '/')
        },
        None => Vec::new(),
    };
    let mut out = marker;
    extend_chars(&mut out, root_relative.as_slice());
    out.push('/');
    let f = chars_of(file_name);
    extend_chars(&mut out, f.as_slice());
    proof {
        assert(out@ =~= path_under_parent(parent_path@, file_name@));
    }
    string_of(out.as_slice())
}

// ───────────────────────── ordering ─────────────────────────

/// Epoch seconds used to order recordings; unparseable dates get the
/// smallest value, so they sink to the bottom.
pub open spec fn epoch_of(last_modified: Seq<char>) -> i64 {
    match rfc3339_timestamp(last_modified) {
        Some(t) => t,
        None => i64::MIN,
    }
}

/// Epoch seconds used to order recordings (see `epoch_of`).
pub fn recording_epoch(recording: &MeetingRecording) -> (t: i64)
    ensures
        t == epoch_of(recording.item.last_modified@),
{
    match parse_rfc3339_timestamp(recording.item.last_modified.as_str()) {
        Some(t) => t,
        None => i64::MIN,
    }
}

/// Sort key of a recording: modification time, lowercased name.
pub open spec fn rec_key(r: MeetingRecording) -> (i64, Seq<char>) {
    (epoch_of(r.item.last_modified@), unicode_lowercase(r.item.name@))
}

/// `a` sorts strictly before `b`: newer first, then by name ascending.
pub open spec fn key_before(a: (i64, Seq<char>), b: (i64, Seq<char>)) -> bool {
    a.0 > b.0 || (a.0 == b.0 && lex_lt(a.1, b.1))
}

/// No recording sorts before an earlier one.
pub open spec fn recordings_sorted(s: Seq<MeetingRecording>) -> bool {
    forall|i: int, j: int| 0 <= i < j < s.len() ==> !key_before(rec_key(s[j]), rec_key(s[i]))
}

proof fn lemma_key_before_mixed(a: (i64, Seq<char>), b: (i64, Seq<char>), c: (i64, Seq<char>))
    requires
        key_before(a, b),
        !key_before(c, b),
    ensures
        key_before(a, c),
        !key_before(c, a),
{
    lemma_lex_total(b.1, c.1);
    if a.0 == b.0 && b.0 == c.0 {
        if lex_lt(b.1, c.1) {
            lemma_lex_transitive(a.1, b.1, c.1);
        }
    }
    if key_before(c, a) {
        if c.0 == a.0 && a.0 == c.0 {
            lemma_lex_asymmetric(a.1, c.1);
        }
    }
}

proof fn lemma_key_not_before_trans(a: (i64, Seq<char>), b: (i64, Seq<char>), c: (i64, Seq<char>))
    requires
        !key_before(b, a),
        !key_before(c, b),
    ensures
        !key_before(c, a),
{
    lemma_lex_total(a.1, b.1);
    lemma_lex_total(b.1, c.1);
    if key_before(c, a) {
        if c.0 == a.0 && a.0 == b.0 && b.0 == c.0 {
            if lex_lt(a.1, b.1) && lex_lt(b.1, c.1) {
                lemma_lex_transitive(a.1, b.1, c.1);
                lemma_lex_asymmetric(a.1, c.1);
            } else if lex_lt(a.1, b.1) {
                lemma_lex_asymmetric(a.1, c.1);
            } else if lex_lt(b.1, c.1) {
                lemma_lex_asymmetric(b.1, c.1);
            } else {
                lemma_lex_irreflexive(a.1);
            }
        }
    }
}

fn rec_key_exec(r: &MeetingRecording) -> (k: (i64, Vec<char>))
    ensures
        (k.0, k.1@) == rec_key(*r),
{
    let t = recording_epoch(r);
    let lower = to_lowercase_chars_of(r.item.name.as_str());
    (t, lower)
}

fn to_lowercase_chars_of(s: &str) -> (out: Vec<char>)
    ensures
        out@ == unicode_lowercase(s@),
{
    let l = crate::text::to_lowercase(s);
    chars_of(l.as_str())
}

fn key_before_exec(a: &(i64, Vec<char>), b: &(i64, Vec<char>)) -> (r: bool)
    ensures
        r == key_before((a.0, a.1@), (b.0, b.1@)),
{
    a.0 > b.0 || (a.0 == b.0 && lex_less(a.1.as_slice(), b.1.as_slice()))
}

/// Sort recordings newest first (lastModifiedDateTime), name ascending
/// (case-insensitively) as tiebreak; unparseable dates sink to the bottom.
pub fn sort_recordings_desc(recordings: &mut Vec<MeetingRecording>)
    ensures
        final(recordings)@.to_multiset() == old(recordings)@.to_multiset(),
        recordings_sorted(final(recordings)@),
{
    broadcast use vstd::seq_lib::group_to_multiset_ensures;

    let ghost orig = recordings@;
    let mut src: Vec<MeetingRecording> = Vec::new();
    std::mem::swap(&mut src, recordings);
    let mut out: Vec<MeetingRecording> = Vec::new();
    let mut keys: Vec<(i64, Vec<char>)> = Vec::new();
    proof {
        assert(out@.to_multiset() =~= vstd::multiset::Multiset::<MeetingRecording>::empty());
    }
    while src.len() > 0
        invariant
            out@.to_multiset().add(src@.to_multiset()) == orig.to_multiset(),
            recordings_sorted(out@),
            keys.len() == out.len(),
            forall|q: int| 0 <= q < out.len() ==> (#[trigger] keys@[q].0, keys@[q].1@) == rec_key(out@[q]),
        decreases src.len(),
    {
        let ghost src_before = src@;
        let x = src.remove(0);
        proof {
            src_before.to_multiset_ensures();
            assert(src_before[0] == x);
            assert(src_before.remove(0).to_multiset() =~= src_before.to_multiset().remove(x));
            assert(src_before.contains(x));
            assert(src_before.to_multiset().count(x) > 0);
            assert(src_before.to_multiset() =~= src@.to_multiset().insert(x));
        }
        let k = rec_key_exec(&x);
        let mut p: usize = 0;
        while p < out.len() && !key_before_exec(&k, &keys[p])
            invariant
                p <= out.len(),
                keys.len() == out.len(),
                forall|q: int| 0 <= q < p ==> !key_before((k.0, k.1@), (#[trigger] keys@[q].0, keys@[q].1@)),
            decreases out.len() - p,
        {
            p = p + 1;
        }
        let ghost out_before = out@;
        let ghost keys_before = keys@;
        proof {
            assert forall|q: int| p <= q < out_before.len() implies !key_before(rec_key(out_before[q]), (k.0, k.1@)) by {
                assert((keys@[q].0, keys@[q].1@) == rec_key(out@[q]));
                assert((keys@[p as int].0, keys@[p as int].1@) == rec_key(out@[p as int]));
                if q > p {
                    assert(!key_before(rec_key(out_before[q]), rec_key(out_before[p as int])));
                    lemma_key_before_mixed((k.0, k.1@), rec_key(out_before[p as int]), rec_key(out_before[q]));
                } else {
                    lemma_lex_irreflexive(rec_key(out_before[p as int]).1);
                    lemma_key_before_mixed((k.0, k.1@), rec_key(out_before[p as int]), rec_key(out_before[p as int]));
                }
            }
        }
        out.insert(p, x);
        keys.insert(p, k);
        proof {
            assert(out@.remove(p as int) =~= out_before);
            assert(out@[p as int] == x);
            out@.to_multiset_ensures();
            assert(out@.to_multiset().count(x) > 0) by {
                assert(out@.contains(x));
            }
            assert(out@.to_multiset().remove(x) == out_before.to_multiset());
            assert(out@.to_multiset() =~= out_before.to_multiset().insert(x));
            assert(out@.to_multiset().add(src@.to_multiset()) =~= orig.to_multiset());
            assert forall|q: int| 0 <= q < out.len() implies (#[trigger] keys@[q].0, keys@[q].1@) == rec_key(out@[q]) by {
                if q < p {
                    assert(keys@[q] == keys_before[q]);
                    assert(out@[q] == out_before[q]);
                } else if q > p {
                    assert(keys@[q] == keys_before[q - 1]);
                    assert(out@[q] == out_before[q - 1]);
                }
            }
            assert forall|i: int, j: int| 0 <= i < j < out@.len() implies !key_before(rec_key(out@[j]), rec_key(out@[i])) by {
                if j < p {
                    assert(out@[i] == out_before[i] && out@[j] == out_before[j]);
                } else if i > p {
                    assert(out@[i] == out_before[i - 1] && out@[j] == out_before[j - 1]);
                } else if i == p {
                    assert(out@[j] == out_before[j - 1]);
                } else if j == p {
                    assert(out@[i] == out_before[i]);
                    assert((keys_before[i].0, keys_before[i].1@) == rec_key(out_before[i]));
                    assert(!key_before((k.0, k.1@), (keys_before[i].0, keys_before[i].1@)));
                } else {
                    assert(out@[i] == out_before[i] && out@[j] == out_before[j - 1]);
                }
            }
        }
    }
    proof {
        assert(src@.to_multiset() =~= vstd::multiset::Multiset::<MeetingRecording>::empty());
        assert(out@.to_multiset().add(vstd::multiset::Multiset::<MeetingRecording>::empty()) =~= out@.to_multiset());
    }
    *recordings = out;
}

/// The recordings among `items` (by `is_recording_video`), in order, each
/// tagged with its drive and source.
pub open spec fn recording_items(items: Seq<DriveItem>) -> Seq<DriveItem>
    decreases items.len(),
{
    if items.len() == 0 {
        items
    } else {
        let r = recording_items(items.drop_last());
        if is_recording_video(items.last().name@) {
            r.push(items.last())
        } else {
            r
        }
    }
}

/// Turn a folder listing into recordings: the `.mp4` items, in order, with
/// the given drive id, source type and source name.
pub fn children_into_recordings(
    items: Vec<DriveItem>,
    drive_id: &str,
    source_type: RecordingSource,
    source_name: &str,
) -> (out: Vec<MeetingRecording>)
    ensures
        out@.map_values(|r: MeetingRecording| r.item) == recording_items(items@),
        forall|i: int|
            0 <= i < out@.len() ==> (#[trigger] out@[i]).drive_id@ == drive_id@
                && out@[i].source_type == source_type && out@[i].source_name@ == source_name@,
{
    let ghost iv = items@;
    let mut out: Vec<MeetingRecording> = Vec::new();
    let mut rest = items;
    let ghost mut k: int = 0;
    proof {
        assert(out@.map_values(|r: MeetingRecording| r.item) =~= recording_items(iv.take(0)));
        assert(iv.subrange(0, iv.len() as int) =~= iv);
    }
    while rest.len() > 0
        invariant
            0 <= k <= iv.len(),
            rest@ == iv.subrange(k, iv.len() as int),
            out@.map_values(|r: MeetingRecording| r.item) == recording_items(iv.take(k)),
            forall|i: int|
                0 <= i < out@.len() ==> (#[trigger] out@[i]).drive_id@ == drive_id@
                    && out@[i].source_type == source_type && out@[i].source_name@ == source_name@,
        decreases rest.len(),
    {
        let item = rest.remove(0);
        proof {
            assert(item == iv[k]);
            assert(iv.take(k + 1).drop_last() =~= iv.take(k));
            assert(iv.take(k + 1).last() == item);
        }
        let keep = is_recording_video_name(item.name.as_str());
        if keep {
            let ghost out_before = out@;
            let ghost item_g = item;
            out.push(MeetingRecording {
                drive_id: string_of_str(drive_id),
                item,
                source_type,
                source_name: string_of_str(source_name),
            });
            proof {
                assert(out@.map_values(|r: MeetingRecording| r.item) =~= out_before.map_values(
                    |r: MeetingRecording| r.item,
                ).push(item_g));
            }
        }
        proof {
            k = k + 1;
            assert(rest@ =~= iv.subrange(k, iv.len() as int));
        }
    }
    proof {
        assert(iv.take(k) =~= iv);
    }
    out
}

fn string_of_str(s: &str) -> (out: String)
    ensures
        out@ == s@,
{
    let v = chars_of(s);
    string_of(v.as_slice())
}

/// Add a site to the list, skipping one whose non-empty id is already listed.
pub fn push_unique_site(sites: &mut Vec<Site>, site: Site)
    ensures
        (site.id@.len() > 0 && exists|i: int| 0 <= i < old(sites)@.len() && (#[trigger] old(sites)@[i]).id@ == site.id@)
            ==> final(sites)@ == old(sites)@,
        !(site.id@.len() > 0 && exists|i: int| 0 <= i < old(sites)@.len() && (#[trigger] old(sites)@[i]).id@ == site.id@)
            ==> final(sites)@ == old(sites)@.push(site),
{
    if !site.id.as_str().is_empty() {
        let mut i: usize = 0;
        while i < sites.len()
            invariant
                i <= sites.len(),
                sites@ == old(sites)@,
                site.id@.len() > 0,
                forall|j: int| 0 <= j < i ==> (#[trigger] sites@[j]).id@ != site.id@,
            decreases sites.len() - i,
        {
            if sites[i].id == site.id {
                return;
            }
            i = i + 1;
        }
    }
    sites.push(site);
}

// ── Transcript export ───────────────────────────────────────────────────

/// What exporting a transcript wrote: how many script lines, from which
/// transcript.
#[derive(Debug, Clone)]
pub struct TranscriptExport {
    pub entry_count: u32,
    pub source_name: String,
}

/// Largest transcript, in bytes, that is exported.
pub const TRANSCRIPT_EXPORT_LIMIT: usize = 10485760;

/// The index of the transcript chosen among a folder's children: the first
/// child of the best (lowest) rank; `None` when no child is a transcript of
/// the recording.
pub open spec fn best_transcript(children: Seq<DriveItem>, base_lower: Seq<char>) -> Option<int>
    decreases children.len(),
{
    if children.len() == 0 {
        None
    } else {
        let b = best_transcript(children.drop_last(), base_lower);
        match match_rank(children.last().name@, base_lower) {
            None => b,
            Some(r) => match b {
                None => Some(children.len() - 1),
                Some(j) => if r < match_rank(children[j].name@, base_lower)->Some_0 {
                    Some(children.len() - 1)
                } else {
                    b
                },
            },
        }
    }
}

proof fn lemma_best_transcript_ranked(children: Seq<DriveItem>, base_lower: Seq<char>)
    ensures
        best_transcript(children, base_lower) matches Some(j) ==> 0 <= j < children.len()
            && match_rank(children[j].name@, base_lower) is Some,
    decreases children.len(),
{
    if children.len() > 0 {
        lemma_best_transcript_ranked(children.drop_last(), base_lower);
    }
}

/// The transcript among a folder's children (see `best_transcript`).
pub fn pick_transcript(children: Vec<DriveItem>, recording_base_lower: &str) -> (r: Option<DriveItem>)
    ensures
        match best_transcript(children@, recording_base_lower@) {
            Some(j) => r == Some(children@[j]),
            None => r is None,
        },
{
    let ghost cv = children@;
    let mut best: Option<(usize, u8)> = None;
    let mut i: usize = 0;
    while i < children.len()
        invariant
            i <= children.len(),
            cv == children@,
            match best_transcript(cv.take(i as int), recording_base_lower@) {
                Some(j) => best matches Some((k, r)) && k == j && k < i && match_rank(
                    cv[j].name@,
                    recording_base_lower@,
                ) == Some(r),
                None => best is None,
            },
        decreases children.len() - i,
    {
        proof {
            assert(cv.take(i + 1).drop_last() =~= cv.take(i as int));
            assert(cv.take(i + 1).last() == cv[i as int]);
            lemma_best_transcript_ranked(cv.take(i as int), recording_base_lower@);
            match best_transcript(cv.take(i as int), recording_base_lower@) {
                Some(j) => {
                    assert(cv.take(i + 1)[j] == cv[j]);
                },
                None => {},
            }
        }
        match transcript_match_rank(children[i].name.as_str(), recording_base_lower) {
            None => {},
            Some(r) => {
                let better = match best {
                    None => true,
                    Some((_, cur)) => r < cur,
                };
                if better {
                    best = Some((i, r));
                }
            },
        }
        i = i + 1;
    }
    proof {
        assert(cv.take(children.len() as int) =~= cv);
    }
    let mut children = children;
    match best {
        Some((k, _)) => Some(children.remove(k)),
        None => None,
    }
}

/// The name of a recording's transcript twin: its base name with `.vtt`.
pub open spec fn transcript_twin(recording_name: Seq<char>) -> Seq<char> {
    base_name(recording_name) + seq!['.', 'v', 't', 't']
}

/// The address of a recording's transcript twin, looked up by path under
/// the recording's folder (which works without the right to list it).
pub open spec fn twin_lookup_url(base: Seq<char>, drive: Seq<char>, parent_path: Seq<char>, recording_name: Seq<char>) -> Seq<char> {
    base + "/drives/"@ + drive + seq!['/'] + crate::encoding::encoded_item_path(
        path_under_parent(parent_path, transcript_twin(recording_name)),
    ) + "?$select="@ + crate::graph_requests::DRIVE_ITEM_SELECT@
}

/// The address of a recording's transcript twin (see `twin_lookup_url`).
pub fn transcript_twin_url(base: &str, drive: &str, parent_path: &str, recording_name: &str) -> (u: String)
    ensures
        u@ == twin_lookup_url(base@, drive@, parent_path@, recording_name@),
{
    let mut twin = chars_of(file_base_name(recording_name));
    twin.push('.');
    twin.push('v');
    twin.push('t');
    twin.push('t');
    let twin_s = string_of(twin.as_slice());
    proof {
        assert(twin_s@ =~= transcript_twin(recording_name@));
    }
    let path = item_path_under_parent(parent_path, twin_s.as_str());
    let enc = crate::encoding::encode_item_path(path.as_str());
    let mut v = chars_of(base);
    crate::text::extend_str(&mut v, "/drives/");
    crate::text::extend_str(&mut v, drive);
    v.push('/');
    crate::text::extend_str(&mut v, enc.as_str());
    crate::text::extend_str(&mut v, "?$select=");
    crate::text::extend_str(&mut v, crate::graph_requests::DRIVE_ITEM_SELECT);
    string_of(v.as_slice())
}

/// The recording itself, with the listing fields.
pub fn recording_item_url(base: &str, drive: &str, item: &str) -> (u: String)
    ensures
        u@ == crate::graph_requests::item_address(base@, drive@, item@) + "?$select="@
            + crate::graph_requests::DRIVE_ITEM_SELECT@,
{
    let mut v = chars_of(crate::graph_requests::item_url(base, drive, item).as_str());
    crate::text::extend_str(&mut v, "?$select=");
    crate::text::extend_str(&mut v, crate::graph_requests::DRIVE_ITEM_SELECT);
    string_of(v.as_slice())
}

/// The drive the recording's folder is on: the parent's, where it names
/// one, else the recording's.
pub fn parent_drive_of(drive_id: &str, parent_drive_id: &str) -> (d: String)
    ensures
        d@ == if parent_drive_id@.len() == 0 {
            drive_id@
        } else {
            parent_drive_id@
        },
{
    if chars_of(parent_drive_id).len() == 0 {
        string_of(chars_of(drive_id).as_slice())
    } else {
        string_of(chars_of(parent_drive_id).as_slice())
    }
}

/// Whether a failed lookup only means "not here" (404) or "not allowed"
/// (403), so the search for a transcript goes on.
pub fn lookup_miss(e: &crate::errors::AppError) -> (b: bool)
    ensures
        b == (*e matches crate::errors::AppError::GraphApi { status_code, .. } && (status_code
            == 404 || status_code == 403)),
{
    match e {
        crate::errors::AppError::GraphApi { status_code, .. } => *status_code == 404
            || *status_code == 403,
        _ => false,
    }
}

/// A transcript is exported only up to 10 MiB; the error names `field`.
pub fn check_transcript_size(len: usize, field: &str) -> (r: Result<(), crate::errors::AppError>)
    ensures
        len <= TRANSCRIPT_EXPORT_LIMIT ==> r is Ok,
        len > TRANSCRIPT_EXPORT_LIMIT ==> (r matches Err(
            crate::errors::AppError::Validation { message, field: f },
        ) && message@ == "Transcript file is too large to export"@ && f@ == field@),
{
    if len > TRANSCRIPT_EXPORT_LIMIT {
        Err(
            crate::errors::AppError::Validation {
                message: string_of(chars_of("Transcript file is too large to export").as_slice()),
                field: string_of(chars_of(field).as_slice()),
            },
        )
    } else {
        Ok(())
    }
}

/// The file a transcript export writes, and what it reports: nothing when
/// no script line remains; else the lines, each ended by a newline, their
/// number and the transcript's name.
pub fn transcript_file(lines: &Vec<String>, source_name: &str) -> (r: Option<(String, TranscriptExport)>)
    ensures
        lines@.len() == 0 ==> r is None,
        lines@.len() > 0 ==> (r matches Some((content, report)) && content@ == crate::text::join(
            crate::text::string_texts(lines@),
            seq!['\n'],
        ) + seq!['\n'] && report.entry_count == lines@.len() as u32 && report.source_name@
            == source_name@),
{
    if lines.len() == 0 {
        return None;
    }
    let mut parts: Vec<Vec<char>> = Vec::new();
    let mut i: usize = 0;
    while i < lines.len()
        invariant
            i <= lines.len(),
            parts.deep_view() == crate::text::string_texts(lines@).take(i as int),
        decreases lines.len() - i,
    {
        let c = chars_of(lines[i].as_str());
        let ghost before = parts.deep_view();
        proof {
            assert(c.deep_view() =~= c@);
        }
        parts.push(c);
        proof {
            assert(parts.deep_view() =~= before.push(lines@[i as int]@));
            assert(crate::text::string_texts(lines@).take(i + 1) =~= crate::text::string_texts(
                lines@,
            ).take(i as int).push(lines@[i as int]@));
        }
        i = i + 1;
    }
    proof {
        assert(crate::text::string_texts(lines@).take(lines.len() as int) =~= crate::text::string_texts(lines@));
    }
    let mut sep: Vec<char> = Vec::new();
    sep.push('\n');
    let mut body = crate::text::join_chars(&parts, sep.as_slice());
    body.push('\n');
    let n = lines.len() as u32;
    Some((string_of(body.as_slice()), TranscriptExport { entry_count: n, source_name: string_of(chars_of(source_name).as_slice()) }))
}

} // verus!
