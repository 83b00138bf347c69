//! Plain text out of Office (OOXML) and PDF files, for the AI context.
//!
//! OOXML documents are zip containers of XML parts; their text sits in
//! well-known elements (`w:t`, `a:t`, `si/t`). The containers are read with
//! `zip`, the XML parts tokenised with `quick-xml` and a PDF's text is
//! what the caller's PDF extractor answered; which parts are read, in what order, and how the text of
//! a part is assembled into paragraphs is verified here.

use vstd::prelude::*;
use quick_xml::events::Event;
use crate::errors::AppError;
use crate::text::{
    chars_eq_str, chars_of, ends_with_chars, extend_chars, extend_str, has_prefix, has_suffix,
    ascii_lower, ascii_lower_seq, join, join_chars, last_index_of, rfind_char, slice_chars,
    to_ascii_lower, starts_with_chars, string_of, string_texts, trim,
    trim_chars,
};
use crate::updater::{parse_u64, parsed_u64};
use crate::transcript::{non_empty, non_empty_parts, strings_of};
use crate::webdav_fs::{from_utf8_lossy_text, utf8_lossy};

verus! {

// ── XML parts ───────────────────────────────────────────────────────────

/// One event of an XML part as the paragraph collector sees it.
#[derive(Debug, Clone)]
pub enum XmlEvent {
    /// An opening tag, with its qualified name.
    Start(Vec<u8>),
    /// A closing tag, with its qualified name.
    End(Vec<u8>),
    /// Character data, entities resolved (empty where they cannot be).
    Text(String),
    /// Anything else: declarations, comments, empty elements, CDATA.
    Other,
}

/// `XmlEvent` over sequences.
pub enum XmlEventView {
    Start(Seq<u8>),
    End(Seq<u8>),
    Text(Seq<char>),
    Other,
}

/// The view of one event.
pub open spec fn event_view(e: XmlEvent) -> XmlEventView {
    match e {
        XmlEvent::Start(n) => XmlEventView::Start(n@),
        XmlEvent::End(n) => XmlEventView::End(n@),
        XmlEvent::Text(t) => XmlEventView::Text(t@),
        XmlEvent::Other => XmlEventView::Other,
    }
}

/// The views of a list of events.
pub open spec fn events_view(es: Seq<XmlEvent>) -> Seq<XmlEventView> {
    es.map_values(|e: XmlEvent| event_view(e))
}

/// The events `quick_xml::Reader` reads from an XML text, up to (not
/// including) the end of the input or the first malformed spot.
pub uninterp spec fn xml_event_list(xml: Seq<char>) -> Seq<XmlEventView>;

/// `quick_xml::Reader::from_str` and `read_event_into` until `Eof` or an
/// error: the events of `xml` in document order (opening and closing tags
/// with their raw names, text unescaped by `BytesText::unescape`, or empty
/// where that fails). The contract names that list; the tokenizer itself is
/// quick-xml's.
#[verifier::external_body]
fn xml_events(xml: &str) -> (events: Vec<XmlEvent>)
    ensures
        events_view(events@) == xml_event_list(xml@),
{
    let mut reader = quick_xml::Reader::from_str(xml);
    let mut buf = Vec::new();
    let mut events = Vec::new();
    loop {
        buf.clear();
        match reader.read_event_into(&mut buf) {
            Ok(Event::Start(e)) => events.push(XmlEvent::Start(e.name().0.to_vec())),
            Ok(Event::End(e)) => events.push(XmlEvent::End(e.name().0.to_vec())),
            Ok(Event::Text(t)) => events.push(XmlEvent::Text(t.unescape().unwrap_or_default().into_owned())),
            Ok(Event::Eof) | Err(_) => return events,
            Ok(_) => events.push(XmlEvent::Other),
        }
    }
}

/// Position of the last `:` in a tag name.
pub open spec fn last_colon(tag: Seq<u8>) -> Option<int>
    decreases tag.len(),
{
    if tag.len() == 0 {
        None
    } else if tag.last() == 58u8 {
        Some(tag.len() - 1)
    } else {
        last_colon(tag.drop_last())
    }
}

/// The local name of a tag: what follows its last `:` (`w:document` →
/// `document`), or the whole name.
pub open spec fn local_name_of(tag: Seq<u8>) -> Seq<u8> {
    match last_colon(tag) {
        Some(p) => tag.subrange(p + 1, tag.len() as int),
        None => tag,
    }
}

/// The local (namespace-stripped) name of an XML tag.
pub fn local_name(tag: &[u8]) -> (name: Vec<u8>)
    ensures
        name@ == local_name_of(tag@),
{
    let mut j: usize = tag.len();
    proof {
        assert(tag@.take(j as int) =~= tag@);
    }
    while j > 0
        invariant
            j <= tag.len(),
            last_colon(tag@) == last_colon(tag@.take(j as int)),
        decreases j,
    {
        if tag[j - 1] == 58u8 {
            assert(tag@.take(j as int).last() == 58u8);
            return copy_bytes(tag, j, tag.len());
        }
        assert(tag@.take(j as int).drop_last() =~= tag@.take(j - 1));
        j = j - 1;
    }
    copy_bytes(tag, 0, tag.len())
}

/// A copy of `v[lo..hi]`.
fn copy_bytes(v: &[u8], lo: usize, hi: usize) -> (out: Vec<u8>)
    requires
        lo <= hi <= v.len(),
    ensures
        out@ == v@.subrange(lo as int, hi as int),
{
    let mut out: Vec<u8> = Vec::new();
    let mut i = lo;
    while i < hi
        invariant
            lo <= i <= hi,
            hi <= v.len(),
            out@ == v@.subrange(lo as int, i as int),
        decreases hi - i,
    {
        out.push(v[i]);
        proof {
            assert(v@.subrange(lo as int, i as int).push(v@[i as int]) =~= v@.subrange(lo as int, i + 1));
        }
        i = i + 1;
    }
    out
}

/// Whether two byte strings are equal.
fn bytes_eq(a: &[u8], b: &[u8]) -> (r: bool)
    ensures
        r == (a@ == b@),
{
    if a.len() != b.len() {
        return false;
    }
    let mut i: usize = 0;
    while i < a.len()
        invariant
            i <= a.len(),
            a.len() == b.len(),
            a@.take(i as int) == b@.take(i as int),
        decreases a.len() - i,
    {
        if a[i] != b[i] {
            assert(a@[i as int] != b@[i as int]);
            return false;
        }
        assert(a@.take(i + 1) =~= a@.take(i as int).push(a@[i as int]));
        assert(b@.take(i + 1) =~= b@.take(i as int).push(b@[i as int]));
        i = i + 1;
    }
    assert(a@.take(a.len() as int) =~= a@);
    assert(b@.take(b.len() as int) =~= b@);
    true
}

/// The paragraph collector's state: the paragraphs so far, the text of the
/// open paragraph, and whether a text element is open.
pub type ParaState = (Seq<Seq<char>>, Seq<char>, bool);

/// One event through the collector: text accumulates inside `text_tag`
/// elements; opening a `para_tag` element starts a paragraph afresh, and
/// closing one keeps its trimmed text when that is not empty.
pub open spec fn para_step(st: ParaState, e: XmlEventView, text_tag: Seq<u8>, para_tag: Seq<u8>) -> ParaState {
    let (ps, cur, in_text) = st;
    match e {
        XmlEventView::Start(n) => if local_name_of(n) == para_tag {
            (ps, Seq::empty(), in_text)
        } else if local_name_of(n) == text_tag {
            (ps, cur, true)
        } else {
            st
        },
        XmlEventView::Text(t) => if in_text {
            (ps, cur + t, in_text)
        } else {
            st
        },
        XmlEventView::End(n) => if local_name_of(n) == text_tag {
            (ps, cur, false)
        } else if local_name_of(n) == para_tag && trim(cur).len() > 0 {
            (ps.push(trim(cur)), Seq::empty(), in_text)
        } else {
            st
        },
        XmlEventView::Other => st,
    }
}

/// The collector's state after a list of events.
pub open spec fn para_fold(es: Seq<XmlEventView>, text_tag: Seq<u8>, para_tag: Seq<u8>) -> ParaState
    decreases es.len(),
{
    if es.len() == 0 {
        (Seq::empty(), Seq::empty(), false)
    } else {
        para_step(para_fold(es.drop_last(), text_tag, para_tag), es.last(), text_tag, para_tag)
    }
}

/// The paragraphs of a list of events: those the collector kept, then the
/// trimmed text still open at the end, if any.
pub open spec fn paragraphs_of(es: Seq<XmlEventView>, text_tag: Seq<u8>, para_tag: Seq<u8>) -> Seq<Seq<char>> {
    let (ps, cur, _) = para_fold(es, text_tag, para_tag);
    if trim(cur).len() > 0 {
        ps.push(trim(cur))
    } else {
        ps
    }
}

/// Whether an event closes a `para_tag` element.
pub open spec fn closes_para(e: XmlEventView, para_tag: Seq<u8>) -> bool {
    e matches XmlEventView::End(n) && local_name_of(n) == para_tag
}

/// The paragraph list grows only where a `para_tag` element closes: any
/// other event (the end of a text run included) leaves the paragraphs
/// kept so far as they were, and closing a paragraph adds at most the one
/// paragraph whose text was open.
pub proof fn lemma_paragraphs_close_only_with_para(
    es: Seq<XmlEventView>,
    e: XmlEventView,
    text_tag: Seq<u8>,
    para_tag: Seq<u8>,
)
    requires
        text_tag != para_tag,
    ensures
        ({
            let (ps0, cur0, _) = para_fold(es, text_tag, para_tag);
            let ps1 = para_fold(es.push(e), text_tag, para_tag).0;
            &&& !closes_para(e, para_tag) ==> ps1 == ps0
            &&& closes_para(e, para_tag) ==> ps1 == ps0 || ps1 == ps0.push(trim(cur0))
        }),
{
    assert(es.push(e).drop_last() =~= es);
}

/// The events of a run of text elements `tn`, one per piece of text.
pub open spec fn text_runs(tn: Seq<u8>, pieces: Seq<Seq<char>>) -> Seq<XmlEventView>
    decreases pieces.len(),
{
    if pieces.len() == 0 {
        Seq::empty()
    } else {
        text_runs(tn, pieces.drop_last()) + seq![
            XmlEventView::Start(tn),
            XmlEventView::Text(pieces.last()),
            XmlEventView::End(tn),
        ]
    }
}

/// The pieces of text one after another.
pub open spec fn concat_pieces(pieces: Seq<Seq<char>>) -> Seq<char>
    decreases pieces.len(),
{
    if pieces.len() == 0 {
        Seq::empty()
    } else {
        concat_pieces(pieces.drop_last()) + pieces.last()
    }
}

proof fn lemma_runs_accumulate(pn: Seq<u8>, tn: Seq<u8>, pieces: Seq<Seq<char>>, text_tag: Seq<u8>, para_tag: Seq<u8>)
    requires
        local_name_of(pn) == para_tag,
        local_name_of(tn) == text_tag,
        text_tag != para_tag,
    ensures
        para_fold(seq![XmlEventView::Start(pn)] + text_runs(tn, pieces), text_tag, para_tag) == (
            Seq::<Seq<char>>::empty(),
            concat_pieces(pieces),
            false,
        ),
    decreases pieces.len(),
{
    let head = seq![XmlEventView::Start(pn)];
    assert(para_fold(Seq::<XmlEventView>::empty(), text_tag, para_tag) == (Seq::<Seq<char>>::empty(), Seq::<char>::empty(), false));
    assert(head.drop_last() =~= Seq::<XmlEventView>::empty());
    assert(head.last() == XmlEventView::Start(pn));
    assert(para_fold(head, text_tag, para_tag) == (Seq::<Seq<char>>::empty(), Seq::<char>::empty(), false));
    if pieces.len() == 0 {
        assert(text_runs(tn, pieces) =~= Seq::<XmlEventView>::empty());
        assert(head + text_runs(tn, pieces) =~= head);
    } else {
        let rest = pieces.drop_last();
        lemma_runs_accumulate(pn, tn, rest, text_tag, para_tag);
        let a = head + text_runs(tn, rest);
        let x = pieces.last();
        let a1 = a.push(XmlEventView::Start(tn));
        let a2 = a1.push(XmlEventView::Text(x));
        let a3 = a2.push(XmlEventView::End(tn));
        assert(head + text_runs(tn, pieces) =~= a3);
        assert(a3.drop_last() =~= a2);
        assert(a2.drop_last() =~= a1);
        assert(a1.drop_last() =~= a);
        assert(para_fold(a1, text_tag, para_tag) == (Seq::<Seq<char>>::empty(), concat_pieces(rest), true));
        assert(para_fold(a2, text_tag, para_tag) == (Seq::<Seq<char>>::empty(), concat_pieces(rest) + x, true));
        assert(concat_pieces(pieces) == concat_pieces(rest) + x);
    }
}

/// One paragraph written as several text runs (as Word writes any
/// formatted word) is one paragraph: the runs' texts joined with nothing
/// between them, trimmed, or no paragraph when that is blank.
pub proof fn lemma_runs_make_one_paragraph(
    pn: Seq<u8>,
    tn: Seq<u8>,
    pieces: Seq<Seq<char>>,
    text_tag: Seq<u8>,
    para_tag: Seq<u8>,
)
    requires
        local_name_of(pn) == para_tag,
        local_name_of(tn) == text_tag,
        text_tag != para_tag,
    ensures
        paragraphs_of(
            seq![XmlEventView::Start(pn)] + text_runs(tn, pieces) + seq![XmlEventView::End(pn)],
            text_tag,
            para_tag,
        ) == if trim(concat_pieces(pieces)).len() > 0 {
            seq![trim(concat_pieces(pieces))]
        } else {
            Seq::<Seq<char>>::empty()
        },
{
    lemma_runs_accumulate(pn, tn, pieces, text_tag, para_tag);
    let a = seq![XmlEventView::Start(pn)] + text_runs(tn, pieces);
    let es = a + seq![XmlEventView::End(pn)];
    assert(es =~= a.push(XmlEventView::End(pn)));
    assert(es.drop_last() =~= a);
    assert(trim(Seq::<char>::empty()).len() == 0);
    assert(Seq::<Seq<char>>::empty().push(trim(concat_pieces(pieces))) =~= seq![trim(concat_pieces(pieces))]);
}

/// The paragraph collector over a list of events (see `paragraphs_of`).
fn collect_paragraphs(events: &Vec<XmlEvent>, text_tag: &str, para_tag: &str) -> (ps: Vec<Vec<char>>)
    ensures
        ps.deep_view() == paragraphs_of(events_view(events@), vstd::utf8::encode_utf8(text_tag@), vstd::utf8::encode_utf8(para_tag@)),
{
    let t = text_tag.as_bytes();
    let p = para_tag.as_bytes();
    let ghost ev = events_view(events@);
    let mut ps: Vec<Vec<char>> = Vec::new();
    let mut cur: Vec<char> = Vec::new();
    let mut in_text = false;
    let mut i: usize = 0;
    while i < events.len()
        invariant
            i <= events.len(),
            ev == events_view(events@),
            t@ == vstd::utf8::encode_utf8(text_tag@),
            p@ == vstd::utf8::encode_utf8(para_tag@),
            (ps.deep_view(), cur@, in_text) == para_fold(ev.take(i as int), t@, p@),
        decreases events.len() - i,
    {
        proof {
            assert(ev.take(i + 1).drop_last() =~= ev.take(i as int));
            assert(ev.take(i + 1).last() == event_view(events@[i as int]));
        }
        match &events[i] {
            XmlEvent::Start(n) => {
                let name = local_name(n.as_slice());
                if bytes_eq(name.as_slice(), p) {
                    cur = Vec::new();
                } else if bytes_eq(name.as_slice(), t) {
                    in_text = true;
                }
            },
            XmlEvent::Text(s) => {
                if in_text {
                    extend_str(&mut cur, s.as_str());
                }
            },
            XmlEvent::End(n) => {
                let name = local_name(n.as_slice());
                if bytes_eq(name.as_slice(), t) {
                    in_text = false;
                } else if bytes_eq(name.as_slice(), p) {
                    let tr = trim_chars(cur.as_slice());
                    if tr.len() > 0 {
                        let ghost before = ps.deep_view();
                        proof {
                            assert(tr.deep_view() == tr@);
                        }
                        ps.push(tr);
                        proof {
                            assert(ps.deep_view() =~= before.push(trim(cur@)));
                        }
                        cur = Vec::new();
                    }
                }
            },
            XmlEvent::Other => {},
        }
        i = i + 1;
    }
    proof {
        assert(ev.take(events.len() as int) =~= ev);
    }
    let tr = trim_chars(cur.as_slice());
    if tr.len() > 0 {
        let ghost before = ps.deep_view();
        proof {
            assert(tr.deep_view() == tr@);
        }
        ps.push(tr);
        proof {
            assert(ps.deep_view() =~= before.push(trim(cur@)));
        }
    }
    ps
}

/// Collects the paragraphs of an XML part from its events (see
/// `paragraphs_of`).
pub fn paragraphs_from_events(events: &Vec<XmlEvent>, text_tag: &str, para_tag: &str) -> (ps: Vec<String>)
    ensures
        string_texts(ps@) == paragraphs_of(events_view(events@), vstd::utf8::encode_utf8(text_tag@), vstd::utf8::encode_utf8(para_tag@)),
{
    let cs = collect_paragraphs(events, text_tag, para_tag);
    let out = strings_of(&cs);
    proof {
        assert(string_texts(out@) =~= out.deep_view());
    }
    out
}

/// The paragraphs of an XML part: its events (see `xml_event_list`)
/// through the collector.
fn paragraphs_from_xml(xml: &str, text_tag: &str, para_tag: &str) -> (ps: Vec<Vec<char>>)
    ensures
        ps.deep_view() == paragraphs_of(xml_event_list(xml@), vstd::utf8::encode_utf8(text_tag@), vstd::utf8::encode_utf8(para_tag@)),
{
    let events = xml_events(xml);
    collect_paragraphs(&events, text_tag, para_tag)
}

// ── Zip containers ──────────────────────────────────────────────────────

#[verifier::external_type_specification]
#[verifier::external_body]
#[verifier::reject_recursive_types(R)]
pub struct ExZipArchive<R>(zip::ZipArchive<R>);

#[verifier::external_type_specification]
#[verifier::external_body]
#[verifier::reject_recursive_types(T)]
pub struct ExCursor<T>(std::io::Cursor<T>);

/// What `zip::ZipArchive::new` makes of a buffer: `None` when it reads the
/// central directory, else the text of its error.
pub uninterp spec fn zip_open_error(bytes: Seq<u8>) -> Option<Seq<char>>;

/// The buffer an archive was opened on.
pub uninterp spec fn zip_source(a: zip::ZipArchive<std::io::Cursor<&[u8]>>) -> Seq<u8>;

/// `ZipArchive::len` of the archive in a buffer: its number of entries.
pub uninterp spec fn zip_entry_count(bytes: Seq<u8>) -> nat;

/// `ZipArchive::by_index(i)` then `ZipFile::name`: the name of entry `i`,
/// or the text of the error that opening it gave.
pub uninterp spec fn zip_entry_name(bytes: Seq<u8>, i: int) -> Result<Seq<char>, Seq<char>>;

/// `ZipArchive::by_index(i)` then `Read::read_to_end`: the decompressed
/// content of entry `i`, or the text of the error.
pub uninterp spec fn zip_entry_data(bytes: Seq<u8>, i: int) -> Result<Seq<u8>, Seq<char>>;

/// `ZipArchive::by_index_raw(i)` then `ZipFile::name`: the name of entry
/// `i` read without decompressing it, or the text of the error.
pub uninterp spec fn zip_raw_entry_name(bytes: Seq<u8>, i: int) -> Result<Seq<char>, Seq<char>>;

/// `ZipArchive::by_name(name)` then `Read::read_to_end`: the decompressed
/// content of the entry called `name`, or the text of the error.
pub uninterp spec fn zip_named_data(bytes: Seq<u8>, name: Seq<char>) -> Result<Seq<u8>, Seq<char>>;

/// `zip::ZipArchive::new` over a cursor on `bytes`: the archive, which
/// remembers its buffer, or the error's text (see `zip_open_error`).
#[verifier::external_body]
fn zip_open(bytes: &[u8]) -> (r: Result<zip::ZipArchive<std::io::Cursor<&[u8]>>, String>)
    ensures
        match r {
            Ok(a) => zip_open_error(bytes@) is None && zip_source(a) == bytes@,
            Err(e) => zip_open_error(bytes@) == Some(e@),
        },
{
    zip::ZipArchive::new(std::io::Cursor::new(bytes)).map_err(|e| e.to_string())
}

/// `ZipArchive::len`: the number of entries (see `zip_entry_count`).
#[verifier::external_body]
fn zip_len(a: &zip::ZipArchive<std::io::Cursor<&[u8]>>) -> (n: usize)
    ensures
        n == zip_entry_count(zip_source(*a)),
{
    a.len()
}

/// `ZipArchive::by_index(i)` and the entry's name (see `zip_entry_name`);
/// reading leaves the archive's buffer as it was.
#[verifier::external_body]
fn zip_name_at(a: &mut zip::ZipArchive<std::io::Cursor<&[u8]>>, i: usize) -> (r: Result<String, String>)
    ensures
        zip_source(*final(a)) == zip_source(*old(a)),
        match r {
            Ok(n) => zip_entry_name(zip_source(*old(a)), i as int) == Ok::<Seq<char>, Seq<char>>(n@),
            Err(e) => zip_entry_name(zip_source(*old(a)), i as int) == Err::<Seq<char>, Seq<char>>(e@),
        },
{
    a.by_index(i).map(|f| f.name().to_string()).map_err(|e| e.to_string())
}

/// `ZipArchive::by_index(i)` and its content read to the end (see
/// `zip_entry_data`); reading leaves the archive's buffer as it was.
#[verifier::external_body]
fn zip_data_at(a: &mut zip::ZipArchive<std::io::Cursor<&[u8]>>, i: usize) -> (r: Result<Vec<u8>, String>)
    ensures
        zip_source(*final(a)) == zip_source(*old(a)),
        match r {
            Ok(d) => zip_entry_data(zip_source(*old(a)), i as int) == Ok::<Seq<u8>, Seq<char>>(d@),
            Err(e) => zip_entry_data(zip_source(*old(a)), i as int) == Err::<Seq<u8>, Seq<char>>(e@),
        },
{
    let mut f = a.by_index(i).map_err(|e| e.to_string())?;
    let mut data = Vec::new();
    std::io::Read::read_to_end(&mut f, &mut data).map_err(|e| e.to_string())?;
    Ok(data)
}

/// `ZipArchive::by_index_raw(i)` and the entry's name (see
/// `zip_raw_entry_name`); reading leaves the archive's buffer as it was.
#[verifier::external_body]
fn zip_raw_name_at(a: &mut zip::ZipArchive<std::io::Cursor<&[u8]>>, i: usize) -> (r: Result<String, String>)
    ensures
        zip_source(*final(a)) == zip_source(*old(a)),
        match r {
            Ok(n) => zip_raw_entry_name(zip_source(*old(a)), i as int) == Ok::<Seq<char>, Seq<char>>(n@),
            Err(e) => zip_raw_entry_name(zip_source(*old(a)), i as int) == Err::<Seq<char>, Seq<char>>(e@),
        },
{
    a.by_index_raw(i).map(|f| f.name().to_string()).map_err(|e| e.to_string())
}

/// `ZipArchive::by_name(name)` and its content read to the end (see
/// `zip_named_data`); reading leaves the archive's buffer as it was.
#[verifier::external_body]
fn zip_data_named(a: &mut zip::ZipArchive<std::io::Cursor<&[u8]>>, name: &str) -> (r: Result<Vec<u8>, String>)
    ensures
        zip_source(*final(a)) == zip_source(*old(a)),
        match r {
            Ok(d) => zip_named_data(zip_source(*old(a)), name@) == Ok::<Seq<u8>, Seq<char>>(d@),
            Err(e) => zip_named_data(zip_source(*old(a)), name@) == Err::<Seq<u8>, Seq<char>>(e@),
        },
{
    let mut f = a.by_name(name).map_err(|e| e.to_string())?;
    let mut data = Vec::new();
    std::io::Read::read_to_end(&mut f, &mut data).map_err(|e| e.to_string())?;
    Ok(data)
}

/// Message prefix of an unreadable container.
pub open spec fn unreadable(e: Seq<char>) -> Seq<char> {
    "not a readable Office document: "@ + e
}

/// Message prefix of a corrupt entry.
pub open spec fn corrupt(e: Seq<char>) -> Seq<char> {
    "corrupt Office document: "@ + e
}

/// The contents of the entries called `wanted` among the first `n` entries
/// of the archive in `bytes`, in zip order; every entry is opened, and the
/// first one that cannot be opened, or wanted one that cannot be read, is
/// the error.
pub open spec fn parts_scan(bytes: Seq<u8>, n: nat, wanted: Seq<char>) -> Result<Seq<Seq<u8>>, Seq<char>>
    decreases n,
{
    if n == 0 {
        Ok(Seq::empty())
    } else {
        match parts_scan(bytes, (n - 1) as nat, wanted) {
            Err(e) => Err(e),
            Ok(ps) => match zip_entry_name(bytes, n - 1) {
                Err(e) => Err(corrupt(e)),
                Ok(name) => if name == wanted {
                    match zip_entry_data(bytes, n - 1) {
                        Err(e) => Err(corrupt(e)),
                        Ok(d) => Ok(ps.push(d)),
                    }
                } else {
                    Ok(ps)
                },
            },
        }
    }
}

/// The parts of an OOXML container called `wanted` (see `parts_scan`), or
/// the message of why they cannot be had.
pub open spec fn parts_of(bytes: Seq<u8>, wanted: Seq<char>) -> Result<Seq<Seq<u8>>, Seq<char>> {
    match zip_open_error(bytes) {
        Some(e) => Err(unreadable(e)),
        None => parts_scan(bytes, zip_entry_count(bytes), wanted),
    }
}

/// Whether `e` is the validation error, on the `item_id` field, with
/// message `m` that extraction fails with.
pub open spec fn is_extraction_error(e: AppError, m: Seq<char>) -> bool {
    e matches AppError::Validation { message, field } && message@ == m && field@ == "item_id"@
}

/// The validation error that extraction fails with.
fn extraction_error(message: Vec<char>) -> (e: AppError)
    ensures
        is_extraction_error(e, message@),
{
    AppError::Validation { message: string_of(message.as_slice()), field: "item_id".to_owned() }
}

/// `prefix` followed by `rest`.
fn prefixed(prefix: &str, rest: &str) -> (out: Vec<char>)
    ensures
        out@ == prefix@ + rest@,
{
    let mut out: Vec<char> = Vec::new();
    extend_str(&mut out, prefix);
    extend_str(&mut out, rest);
    out
}

/// Once the scan of the first `i` entries fails, scans of more entries fail
/// the same way.
proof fn lemma_scan_error_sticks(bytes: Seq<u8>, i: nat, n: nat, wanted: Seq<char>)
    requires
        i <= n,
        parts_scan(bytes, i, wanted) is Err,
    ensures
        parts_scan(bytes, n, wanted) == parts_scan(bytes, i, wanted),
    decreases n - i,
{
    if i < n {
        lemma_scan_error_sticks(bytes, i, (n - 1) as nat, wanted);
    }
}

/// Unzips an OOXML container and returns the entries called `wanted`, in
/// zip order (see `parts_of`).
fn read_parts(bytes: &[u8], wanted: &str) -> (r: Result<Vec<Vec<u8>>, AppError>)
    ensures
        match r {
            Ok(ps) => parts_of(bytes@, wanted@) == Ok::<Seq<Seq<u8>>, Seq<char>>(ps.deep_view()),
            Err(e) => parts_of(bytes@, wanted@) matches Err(m) && is_extraction_error(e, m),
        },
{
    let mut archive = match zip_open(bytes) {
        Ok(a) => a,
        Err(e) => {
            return Err(extraction_error(prefixed("not a readable Office document: ", e.as_str())));
        },
    };
    let n = zip_len(&archive);
    let mut parts: Vec<Vec<u8>> = Vec::new();
    let mut i: usize = 0;
    proof {
        assert(parts.deep_view() =~= Seq::<Seq<u8>>::empty());
    }
    while i < n
        invariant
            i <= n,
            zip_source(archive) == bytes@,
            n == zip_entry_count(bytes@),
            zip_open_error(bytes@) is None,
            parts_scan(bytes@, i as nat, wanted@) == Ok::<Seq<Seq<u8>>, Seq<char>>(parts.deep_view()),
        decreases n - i,
    {
        let name = match zip_name_at(&mut archive, i) {
            Ok(name) => name,
            Err(e) => {
                proof {
                    lemma_scan_error_sticks(bytes@, (i + 1) as nat, n as nat, wanted@);
                }
                return Err(extraction_error(prefixed("corrupt Office document: ", e.as_str())));
            },
        };
        if chars_eq_str_str(name.as_str(), wanted) {
            let data = match zip_data_at(&mut archive, i) {
                Ok(d) => d,
                Err(e) => {
                    proof {
                        lemma_scan_error_sticks(bytes@, (i + 1) as nat, n as nat, wanted@);
                    }
                    return Err(extraction_error(prefixed("corrupt Office document: ", e.as_str())));
                },
            };
            let ghost before = parts.deep_view();
            proof {
                assert(data.deep_view() =~= data@);
            }
            parts.push(data);
            proof {
                assert(parts.deep_view() =~= before.push(data@));
            }
        }
        i = i + 1;
    }
    Ok(parts)
}

/// Whether two strings are equal.
fn chars_eq_str_str(a: &str, b: &str) -> (r: bool)
    ensures
        r == (a@ == b@),
{
    let ca = chars_of(a);
    chars_eq_str(ca.as_slice(), b)
}

// ── Documents ───────────────────────────────────────────────────────────

/// The text of an XML part: its paragraphs (text in `t` elements, split at
/// `para_tag` elements), one per line.
pub open spec fn part_text(part: Seq<u8>, para_tag: Seq<char>) -> Seq<char> {
    join(
        paragraphs_of(xml_event_list(utf8_lossy(part)), vstd::utf8::encode_utf8("t"@), vstd::utf8::encode_utf8(para_tag)),
        "\n"@,
    )
}

/// The text of the first part called `wanted`, or the message of why there
/// is none (`missing` when the container has no such part).
pub open spec fn first_part_text(bytes: Seq<u8>, wanted: Seq<char>, para_tag: Seq<char>, missing: Seq<char>) -> Result<Seq<char>, Seq<char>> {
    match parts_of(bytes, wanted) {
        Err(m) => Err(m),
        Ok(ps) => if ps.len() == 0 {
            Err(missing)
        } else {
            Ok(part_text(ps[0], para_tag))
        },
    }
}

/// What extracting a Word document gives: the paragraphs of
/// `word/document.xml`.
pub open spec fn docx_outcome(bytes: Seq<u8>) -> Result<Seq<char>, Seq<char>> {
    first_part_text(bytes, "word/document.xml"@, "p"@, "document.xml missing from docx container"@)
}

/// What extracting an Excel workbook gives: the entries of its shared
/// string table (`xl/sharedStrings.xml`), one per line.
pub open spec fn xlsx_outcome(bytes: Seq<u8>) -> Result<Seq<char>, Seq<char>> {
    first_part_text(bytes, "xl/sharedStrings.xml"@, "si"@, "sharedStrings.xml missing from xlsx container"@)
}

/// Whether an extraction result is the outcome `o`: its text, or the
/// validation error on `item_id` with `o`'s message.
pub open spec fn is_outcome(r: Result<String, AppError>, o: Result<Seq<char>, Seq<char>>) -> bool {
    match r {
        Ok(t) => o == Ok::<Seq<char>, Seq<char>>(t@),
        Err(e) => o matches Err(m) && is_extraction_error(e, m),
    }
}

/// The text of the first part called `wanted` (see `first_part_text`).
fn first_part(bytes: &[u8], wanted: &str, para_tag: &str, missing: &str) -> (r: Result<String, AppError>)
    ensures
        is_outcome(r, first_part_text(bytes@, wanted@, para_tag@, missing@)),
{
    let parts = match read_parts(bytes, wanted) {
        Ok(ps) => ps,
        Err(e) => {
            return Err(e);
        },
    };
    if parts.len() == 0 {
        return Err(extraction_error(chars_of(missing)));
    }
    proof {
        assert(parts@[0].deep_view() =~= parts@[0]@);
    }
    let xml = from_utf8_lossy_text(parts[0].as_slice());
    let ps = paragraphs_from_xml(xml.as_str(), "t", para_tag);
    let text = join_chars(&ps, chars_of("\n").as_slice());
    Ok(string_of(text.as_slice()))
}

/// Word document: the paragraphs of `word/document.xml` (see
/// `docx_outcome`).
pub fn docx_text(bytes: &[u8]) -> (r: Result<String, AppError>)
    ensures
        is_outcome(r, docx_outcome(bytes@)),
{
    first_part(bytes, "word/document.xml", "p", "document.xml missing from docx container")
}

/// Excel workbook: the shared string table's entries, one per line (see
/// `xlsx_outcome`). Numbers and formulas are not text cells and are left
/// out.
pub fn xlsx_text(bytes: &[u8]) -> (r: Result<String, AppError>)
    ensures
        is_outcome(r, xlsx_outcome(bytes@)),
{
    first_part(bytes, "xl/sharedStrings.xml", "si", "sharedStrings.xml missing from xlsx container")
}

/// What extracting a PDF gives, from what the PDF text extractor answered
/// for its bytes (`Ok` of the text, or `Err` of the extractor's message).
pub open spec fn pdf_outcome(extracted: Result<Seq<char>, Seq<char>>) -> Result<Seq<char>, Seq<char>> {
    match extracted {
        Ok(t) => Ok(t),
        Err(e) => Err("failed to extract PDF text: "@ + e),
    }
}

/// The views of an extractor's answer.
pub open spec fn answer_view(a: Result<String, String>) -> Result<Seq<char>, Seq<char>> {
    match a {
        Ok(t) => Ok(t@),
        Err(e) => Err(e@),
    }
}

/// PDF text from what the PDF text extractor answered for the file (see
/// `pdf_outcome`). Reading PDFs is left to the caller: the extractor panics
/// on some malformed documents, so it runs where that can be contained.
pub fn pdf_text(extracted: Result<String, String>) -> (r: Result<String, AppError>)
    ensures
        is_outcome(r, pdf_outcome(answer_view(extracted))),
{
    match extracted {
        Ok(t) => Ok(t),
        Err(e) => Err(extraction_error(prefixed("failed to extract PDF text: ", e.as_str()))),
    }
}

// ── Presentations ───────────────────────────────────────────────────────

/// `str::parse::<u32>`: an optional `+`, then one or more ASCII digits,
/// whose value fits in a `u32`.
pub open spec fn parsed_u32(s: Seq<char>) -> Option<u32> {
    match parsed_u64(s) {
        Some(v) => if v <= u32::MAX {
            Some(v as u32)
        } else {
            None
        },
        None => None,
    }
}

/// The number of a slide part `ppt/slides/slide{N}.xml`, or `None` for any
/// other entry.
pub open spec fn slide_number(name: Seq<char>) -> Option<u32> {
    if has_prefix(name, "ppt/slides/slide"@) {
        let rest = name.subrange(16, name.len() as int);
        if has_suffix(rest, ".xml"@) {
            parsed_u32(rest.subrange(0, rest.len() - 4))
        } else {
            None
        }
    } else {
        None
    }
}

/// The slide parts among the first `n` entries of the archive in `bytes`,
/// in zip order, with their numbers; every entry's name is read, and the
/// first one that cannot be, or slide that cannot be read, is the error.
pub open spec fn slide_scan(bytes: Seq<u8>, n: nat) -> Result<Seq<(u32, Seq<u8>)>, Seq<char>>
    decreases n,
{
    if n == 0 {
        Ok(Seq::empty())
    } else {
        match slide_scan(bytes, (n - 1) as nat) {
            Err(e) => Err(e),
            Ok(ss) => match zip_raw_entry_name(bytes, n - 1) {
                Err(e) => Err(corrupt(e)),
                Ok(name) => match slide_number(name) {
                    None => Ok(ss),
                    Some(k) => match zip_named_data(bytes, name) {
                        Err(e) => Err(corrupt(e)),
                        Ok(d) => Ok(ss.push((k, d))),
                    },
                },
            },
        }
    }
}

/// Where a slide numbered `k` goes in slides ordered by number: after every
/// slide numbered `k` or less.
pub open spec fn insert_pos(s: Seq<(u32, Seq<u8>)>, k: u32) -> int
    decreases s.len(),
{
    if s.len() == 0 {
        0
    } else if s.last().0 <= k {
        s.len() as int
    } else {
        insert_pos(s.drop_last(), k)
    }
}

/// Slides ordered by number, those with equal numbers in their original
/// order (what a stable sort by number gives).
pub open spec fn sort_by_number(s: Seq<(u32, Seq<u8>)>) -> Seq<(u32, Seq<u8>)>
    decreases s.len(),
{
    if s.len() == 0 {
        Seq::empty()
    } else {
        let sorted = sort_by_number(s.drop_last());
        sorted.insert(insert_pos(sorted, s.last().0), s.last())
    }
}

/// The texts of slides, each its paragraphs one per line.
pub open spec fn slide_texts(s: Seq<(u32, Seq<u8>)>) -> Seq<Seq<char>> {
    s.map_values(|sl: (u32, Seq<u8>)| part_text(sl.1, "p"@))
}

/// What extracting a PowerPoint deck gives: the text of each slide that has
/// any, in slide order, separated by blank lines.
pub open spec fn pptx_outcome(bytes: Seq<u8>) -> Result<Seq<char>, Seq<char>> {
    match zip_open_error(bytes) {
        Some(e) => Err(unreadable(e)),
        None => match slide_scan(bytes, zip_entry_count(bytes)) {
            Err(m) => Err(m),
            Ok(ss) => if ss.len() == 0 {
                Err("no slides found in pptx container"@)
            } else {
                Ok(join(non_empty(slide_texts(sort_by_number(ss))), "\n\n"@))
            },
        },
    }
}

/// The view of a list of slides.
pub open spec fn slides_view(v: Seq<(u32, Vec<u8>)>) -> Seq<(u32, Seq<u8>)> {
    v.map_values(|p: (u32, Vec<u8>)| (p.0, p.1@))
}

proof fn lemma_sorted_len(s: Seq<(u32, Seq<u8>)>)
    ensures
        sort_by_number(s).len() == s.len(),
    decreases s.len(),
{
    if s.len() > 0 {
        lemma_sorted_len(s.drop_last());
        lemma_insert_pos_range(sort_by_number(s.drop_last()), s.last().0);
    }
}

proof fn lemma_insert_pos_range(s: Seq<(u32, Seq<u8>)>, k: u32)
    ensures
        0 <= insert_pos(s, k) <= s.len(),
    decreases s.len(),
{
    if s.len() > 0 {
        lemma_insert_pos_range(s.drop_last(), k);
    }
}

proof fn lemma_slide_error_sticks(bytes: Seq<u8>, i: nat, n: nat)
    requires
        i <= n,
        slide_scan(bytes, i) is Err,
    ensures
        slide_scan(bytes, n) == slide_scan(bytes, i),
    decreases n - i,
{
    if i < n {
        lemma_slide_error_sticks(bytes, i, (n - 1) as nat);
    }
}

/// Parses a `u32` as `str::parse` does (see `parsed_u32`).
fn parse_u32(s: &[char]) -> (r: Option<u32>)
    ensures
        r == parsed_u32(s@),
{
    match parse_u64(s) {
        Some(v) => if v <= 4294967295u64 {
            Some(v as u32)
        } else {
            None
        },
        None => None,
    }
}

/// The number of a slide part (see `slide_number`).
fn slide_number_of(name: &str) -> (r: Option<u32>)
    ensures
        r == slide_number(name@),
{
    let cs = chars_of(name);
    let prefix = chars_of("ppt/slides/slide");
    proof {
        reveal_strlit("ppt/slides/slide");
        reveal_strlit(".xml");
    }
    if !starts_with_chars(cs.as_slice(), prefix.as_slice()) {
        return None;
    }
    let rest = slice_chars(cs.as_slice(), 16, cs.len());
    if !ends_with_chars(rest.as_slice(), chars_of(".xml").as_slice()) {
        return None;
    }
    let digits = slice_chars(rest.as_slice(), 0, rest.len() - 4);
    parse_u32(digits.as_slice())
}

/// Inserts a slide after every slide numbered as it or less (see
/// `insert_pos`).
fn insert_slide(sorted: &mut Vec<(u32, Vec<u8>)>, k: u32, data: Vec<u8>)
    ensures
        slides_view(final(sorted)@) == slides_view(old(sorted)@).insert(
            insert_pos(slides_view(old(sorted)@), k),
            (k, data@),
        ),
{
    let ghost v = slides_view(sorted@);
    let mut j: usize = sorted.len();
    proof {
        assert(v.take(j as int) =~= v);
    }
    while j > 0 && sorted[j - 1].0 > k
        invariant
            j <= sorted.len(),
            v == slides_view(sorted@),
            insert_pos(v, k) == insert_pos(v.take(j as int), k),
        decreases j,
    {
        proof {
            assert(v.take(j as int).last() == v[j - 1]);
            assert(v.take(j as int).drop_last() =~= v.take(j - 1));
        }
        j = j - 1;
    }
    proof {
        if j > 0 {
            assert(v.take(j as int).last() == v[j - 1]);
        } else {
            assert(v.take(0) =~= Seq::<(u32, Seq<u8>)>::empty());
        }
        assert(insert_pos(v, k) == j);
    }
    sorted.insert(j, (k, data));
    proof {
        assert(slides_view(sorted@) =~= v.insert(j as int, (k, data@)));
    }
}

/// The slides of a deck in slide order (see `slide_scan` and
/// `sort_by_number`), or the extraction error.
fn read_slides(bytes: &[u8]) -> (r: Result<Vec<(u32, Vec<u8>)>, AppError>)
    ensures
        match r {
            Ok(sl) => {
                &&& zip_open_error(bytes@) is None
                &&& slide_scan(bytes@, zip_entry_count(bytes@)) matches Ok(ss)
                &&& slides_view(sl@) == sort_by_number(ss)
            },
            Err(e) => (match zip_open_error(bytes@) {
                Some(m) => is_extraction_error(e, unreadable(m)),
                None => slide_scan(bytes@, zip_entry_count(bytes@)) matches Err(m) && is_extraction_error(e, m),
            }),
        },
{
    let mut archive = match zip_open(bytes) {
        Ok(a) => a,
        Err(e) => {
            return Err(extraction_error(prefixed("not a readable Office document: ", e.as_str())));
        },
    };
    let n = zip_len(&archive);
    let mut sorted: Vec<(u32, Vec<u8>)> = Vec::new();
    let ghost mut scanned: Seq<(u32, Seq<u8>)> = Seq::empty();
    let mut i: usize = 0;
    proof {
        assert(slides_view(sorted@) =~= Seq::<(u32, Seq<u8>)>::empty());
    }
    while i < n
        invariant
            i <= n,
            zip_source(archive) == bytes@,
            n == zip_entry_count(bytes@),
            zip_open_error(bytes@) is None,
            slide_scan(bytes@, i as nat) == Ok::<Seq<(u32, Seq<u8>)>, Seq<char>>(scanned),
            slides_view(sorted@) == sort_by_number(scanned),
        decreases n - i,
    {
        let name = match zip_raw_name_at(&mut archive, i) {
            Ok(name) => name,
            Err(e) => {
                proof {
                    lemma_slide_error_sticks(bytes@, (i + 1) as nat, n as nat);
                }
                return Err(extraction_error(prefixed("corrupt Office document: ", e.as_str())));
            },
        };
        match slide_number_of(name.as_str()) {
            None => {},
            Some(k) => {
                let data = match zip_data_named(&mut archive, name.as_str()) {
                    Ok(d) => d,
                    Err(e) => {
                        proof {
                            lemma_slide_error_sticks(bytes@, (i + 1) as nat, n as nat);
                        }
                        return Err(extraction_error(prefixed("corrupt Office document: ", e.as_str())));
                    },
                };
                proof {
                    assert(scanned.push((k, data@)).drop_last() =~= scanned);
                }
                insert_slide(&mut sorted, k, data);
                proof {
                    scanned = scanned.push((k, data@));
                }
            },
        }
        i = i + 1;
    }
    Ok(sorted)
}

/// The texts of slides, in order (see `slide_texts`).
fn texts_of_slides(sl: &Vec<(u32, Vec<u8>)>) -> (out: Vec<Vec<char>>)
    ensures
        out.deep_view() == slide_texts(slides_view(sl@)),
{
    let ghost v = slides_view(sl@);
    let mut out: Vec<Vec<char>> = Vec::new();
    let mut i: usize = 0;
    proof {
        assert(out.deep_view() =~= slide_texts(v).take(0));
    }
    while i < sl.len()
        invariant
            i <= sl.len(),
            v == slides_view(sl@),
            out.deep_view() == slide_texts(v).take(i as int),
        decreases sl.len() - i,
    {
        let xml = from_utf8_lossy_text(sl[i].1.as_slice());
        let ps = paragraphs_from_xml(xml.as_str(), "t", "p");
        let text = join_chars(&ps, chars_of("\n").as_slice());
        let ghost before = out.deep_view();
        proof {
            assert(text.deep_view() =~= text@);
            assert(v[i as int] == (sl@[i as int].0, sl@[i as int].1@));
            assert(text@ == part_text(v[i as int].1, "p"@));
            assert(slide_texts(v)[i as int] == part_text(v[i as int].1, "p"@));
        }
        out.push(text);
        proof {
            assert(out.deep_view() =~= before.push(text@));
            assert(slide_texts(v).take(i + 1) =~= slide_texts(v).take(i as int).push(slide_texts(v)[i as int]));
        }
        i = i + 1;
    }
    proof {
        assert(slide_texts(v).take(sl.len() as int) =~= slide_texts(v));
    }
    out
}

/// PowerPoint deck: the text of each slide `ppt/slides/slideN.xml` that has
/// any, in slide order, separated by blank lines (see `pptx_outcome`).
pub fn pptx_text(bytes: &[u8]) -> (r: Result<String, AppError>)
    ensures
        is_outcome(r, pptx_outcome(bytes@)),
{
    let slides = match read_slides(bytes) {
        Ok(sl) => sl,
        Err(e) => {
            return Err(e);
        },
    };
    let ghost ss = match slide_scan(bytes@, zip_entry_count(bytes@)) {
        Ok(ss) => ss,
        Err(_) => Seq::empty(),
    };
    proof {
        lemma_sorted_len(ss);
    }
    if slides.len() == 0 {
        return Err(extraction_error(chars_of("no slides found in pptx container")));
    }
    let texts = texts_of_slides(&slides);
    let ghost tv = texts.deep_view();
    let pages = non_empty_parts(texts);
    let sep = chars_of("\n\n");
    let joined = join_chars(&pages, sep.as_slice());
    proof {
        assert(slides_view(slides@).len() == slides@.len());
        assert(slides_view(slides@) == sort_by_number(ss));
        assert(tv == slide_texts(sort_by_number(ss)));
        assert(pages.deep_view() == non_empty(slide_texts(sort_by_number(ss))));
        assert(ss.len() > 0);
        assert(joined@ == join(non_empty(slide_texts(sort_by_number(ss))), "\n\n"@));
    }
    Ok(string_of(joined.as_slice()))
}

// ── Routing ─────────────────────────────────────────────────────────────

/// The extension of a file name as the router compares it: what follows the
/// last `.` (the whole name when there is none), in ASCII lowercase.
pub open spec fn extension_of(name: Seq<char>) -> Seq<char> {
    ascii_lower_seq(
        match last_index_of(name, '.') {
            Some(i) => name.subrange(i + 1, name.len() as int),
            None => name,
        },
    )
}

/// What extracting a file gives, by its extension: Word, PowerPoint and
/// Excel documents are parsed, a PDF gives what its text extractor answered
/// (`pdf`); anything else is taken as UTF-8 text, invalid sequences
/// replaced.
pub open spec fn extract_outcome(
    name: Seq<char>,
    bytes: Seq<u8>,
    pdf: Result<Seq<char>, Seq<char>>,
) -> Result<Seq<char>, Seq<char>> {
    let ext = extension_of(name);
    if ext == "docx"@ {
        docx_outcome(bytes)
    } else if ext == "pptx"@ {
        pptx_outcome(bytes)
    } else if ext == "xlsx"@ {
        xlsx_outcome(bytes)
    } else if ext == "pdf"@ {
        pdf_outcome(pdf)
    } else {
        Ok(utf8_lossy(bytes))
    }
}

/// ASCII lowercase of every character.
fn ascii_lowercase_chars(v: &[char]) -> (out: Vec<char>)
    ensures
        out@ == ascii_lower_seq(v@),
{
    let mut out: Vec<char> = Vec::new();
    let mut i: usize = 0;
    while i < v.len()
        invariant
            i <= v.len(),
            out@ == ascii_lower_seq(v@.take(i as int)),
        decreases v.len() - i,
    {
        out.push(to_ascii_lower(v[i]));
        proof {
            assert(ascii_lower_seq(v@.take(i + 1)) =~= ascii_lower_seq(v@.take(i as int)).push(ascii_lower(v@[i as int])));
        }
        i = i + 1;
    }
    proof {
        assert(v@.take(v.len() as int) =~= v@);
    }
    out
}

/// The extension the router goes by (see `extension_of`).
fn file_extension(name: &str) -> (ext: Vec<char>)
    ensures
        ext@ == extension_of(name@),
{
    let cs = chars_of(name);
    match rfind_char(cs.as_slice(), '.') {
        Some(i) => {
            let tail = slice_chars(cs.as_slice(), i + 1, cs.len());
            ascii_lowercase_chars(tail.as_slice())
        },
        None => ascii_lowercase_chars(cs.as_slice()),
    }
}

/// Whether a file is a PDF by the router's reckoning, so that its text
/// extractor's answer has to be handed to `extract_from_bytes`.
pub fn is_pdf_name(file_name: &str) -> (b: bool)
    ensures
        b == (extension_of(file_name@) == "pdf"@),
{
    let ext = file_extension(file_name);
    proof {
        reveal_strlit("pdf");
    }
    chars_eq_str(ext.as_slice(), "pdf")
}

/// Extracts plain text from a file's bytes, routing by its extension (see
/// `extract_outcome`). For a PDF (`is_pdf_name`), `pdf_extracted` is what
/// the PDF text extractor answered for `bytes`; other files ignore it.
pub fn extract_from_bytes(
    file_name: &str,
    bytes: &[u8],
    pdf_extracted: Option<Result<String, String>>,
) -> (r: Result<String, AppError>)
    requires
        extension_of(file_name@) == "pdf"@ ==> pdf_extracted is Some,
    ensures
        extension_of(file_name@) == "pdf"@ ==> is_outcome(
            r,
            extract_outcome(file_name@, bytes@, answer_view(pdf_extracted.unwrap())),
        ),
        extension_of(file_name@) != "pdf"@ ==> forall|a: Result<Seq<char>, Seq<char>>|
            is_outcome(r, #[trigger] extract_outcome(file_name@, bytes@, a)),
{
    let ext = file_extension(file_name);
    if chars_eq_str(ext.as_slice(), "docx") {
        docx_text(bytes)
    } else if chars_eq_str(ext.as_slice(), "pptx") {
        pptx_text(bytes)
    } else if chars_eq_str(ext.as_slice(), "xlsx") {
        xlsx_text(bytes)
    } else if chars_eq_str(ext.as_slice(), "pdf") {
        pdf_text(pdf_extracted.unwrap())
    } else {
        Ok(from_utf8_lossy_text(bytes))
    }
}

} // verus!
