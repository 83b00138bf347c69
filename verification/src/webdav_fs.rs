//! The WebDAV gateway's view of a drive: which names are hidden, how
//! listings are ordered, how request paths become relative segments and
//! Graph URLs, and how Graph items and errors map to WebDAV metadata.

use vstd::prelude::*;
use crate::cache::{copy_item, CachedItem};
use crate::encoding::{is_graph_segment_byte, percent_encode_graph_segment, percent_encoded};
use crate::errors::AppError;
use crate::order::{
    lemma_lex_asymmetric, lemma_lex_irreflexive, lemma_lex_total, lemma_lex_transitive, lex_less,
    lex_lt,
};
use crate::text::{
    chars_of, extend_chars, extend_str, has_prefix, join, join_chars, starts_with_chars,
    string_of, to_lowercase, unicode_lowercase,
};
use crate::time::{parse_rfc3339_timestamp, rfc3339_timestamp};

verus! {

/// OS junk files that never surface in listings: Finder's `.DS_Store` and
/// AppleDouble `._*` files, Explorer's `Thumbs.db` and `desktop.ini`, and
/// the macOS `.TemporaryItems` and `.Spotlight-V100` folders.
pub open spec fn is_junk_name(name: Seq<char>) -> bool {
    name == ".DS_Store"@ || name == "Thumbs.db"@ || name == "desktop.ini"@ || name
        == ".TemporaryItems"@ || name == ".Spotlight-V100"@ || has_prefix(name, "._"@)
}

/// Whether `name` is an OS junk file (see `is_junk_name`).
pub fn is_junk_file(name: &str) -> (r: bool)
    ensures
        r == is_junk_name(name@),
{
    let v = chars_of(name);
    let s = v.as_slice();
    crate::text::chars_eq_str(s, ".DS_Store") || crate::text::chars_eq_str(s, "Thumbs.db")
        || crate::text::chars_eq_str(s, "desktop.ini") || crate::text::chars_eq_str(
        s,
        ".TemporaryItems",
    ) || crate::text::chars_eq_str(s, ".Spotlight-V100") || {
        let p = chars_of("._");
        starts_with_chars(s, p.as_slice())
    }
}

/// Sort key of a listing entry: folders before files, then the Unicode
/// lowercase of the name in code point order.
pub open spec fn child_key(item: CachedItem) -> (bool, Seq<char>) {
    (item.is_dir, unicode_lowercase(item.name@))
}

/// `a` sorts strictly before `b`.
pub open spec fn child_key_before(a: (bool, Seq<char>), b: (bool, Seq<char>)) -> bool {
    (a.0 && !b.0) || (a.0 == b.0 && lex_lt(a.1, b.1))
}

/// No entry of the listing sorts before an earlier one.
pub open spec fn children_sorted(s: Seq<CachedItem>) -> bool {
    forall|i: int, j: int|
        0 <= i < j < s.len() ==> !child_key_before(child_key(s[j]), child_key(s[i]))
}

/// The entries of a listing whose sort key is `key`, in listing order.
pub open spec fn with_key(s: Seq<CachedItem>, key: (bool, Seq<char>)) -> Seq<CachedItem>
    decreases s.len(),
{
    if s.len() == 0 {
        Seq::empty()
    } else if child_key(s.last()) == key {
        with_key(s.drop_last(), key).push(s.last())
    } else {
        with_key(s.drop_last(), key)
    }
}

proof fn lemma_with_key_add(a: Seq<CachedItem>, b: Seq<CachedItem>, key: (bool, Seq<char>))
    ensures
        with_key(a + b, key) == with_key(a, key) + with_key(b, key),
    decreases b.len(),
{
    if b.len() == 0 {
        assert(a + b =~= a);
        assert(with_key(a, key) + with_key(b, key) =~= with_key(a, key));
    } else {
        assert((a + b).drop_last() =~= a + b.drop_last());
        assert((a + b).last() == b.last());
        lemma_with_key_add(a, b.drop_last(), key);
        if child_key(b.last()) == key {
            assert(with_key(a, key) + with_key(b.drop_last(), key).push(b.last()) =~= (with_key(a, key)
                + with_key(b.drop_last(), key)).push(b.last()));
        }
    }
}

proof fn lemma_with_key_single(x: CachedItem, key: (bool, Seq<char>))
    ensures
        with_key(seq![x], key) == if child_key(x) == key {
            seq![x]
        } else {
            Seq::<CachedItem>::empty()
        },
{
    let s = seq![x];
    assert(s.drop_last() =~= Seq::<CachedItem>::empty());
    assert(s.last() == x);
    assert(with_key(s.drop_last(), key) == Seq::<CachedItem>::empty());
    if child_key(x) == key {
        assert(Seq::<CachedItem>::empty().push(x) =~= s);
    }
}

proof fn lemma_with_key_none(s: Seq<CachedItem>, key: (bool, Seq<char>))
    requires
        forall|i: int| 0 <= i < s.len() ==> child_key(#[trigger] s[i]) != key,
    ensures
        with_key(s, key) == Seq::<CachedItem>::empty(),
    decreases s.len(),
{
    if s.len() > 0 {
        assert(child_key(s[s.len() - 1]) != key);
        lemma_with_key_none(s.drop_last(), key);
    }
}

proof fn lemma_child_key_mixed(a: (bool, Seq<char>), b: (bool, Seq<char>), c: (bool, Seq<char>))
    requires
        child_key_before(a, b),
        !child_key_before(c, b),
    ensures
        child_key_before(a, c),
{
    lemma_lex_total(b.1, c.1);
    if a.0 == b.0 && b.0 == c.0 {
        if lex_lt(b.1, c.1) {
            lemma_lex_transitive(a.1, b.1, c.1);
        }
    }
}

fn child_key_exec(item: &CachedItem) -> (k: (bool, Vec<char>))
    ensures
        (k.0, k.1@) == child_key(*item),
{
    let l = to_lowercase(item.name.as_str());
    (item.is_dir, chars_of(l.as_str()))
}

fn child_key_before_exec(a: &(bool, Vec<char>), b: &(bool, Vec<char>)) -> (r: bool)
    ensures
        r == child_key_before((a.0, a.1@), (b.0, b.1@)),
{
    (a.0 && !b.0) || (a.0 == b.0 && lex_less(a.1.as_slice(), b.1.as_slice()))
}

/// Sort a listing in place: folders first, then files, each group by
/// lowercased name; entries with equal keys keep their order (`with_key`).
pub fn sort_children(items: &mut Vec<CachedItem>)
    ensures
        final(items)@.to_multiset() == old(items)@.to_multiset(),
        children_sorted(final(items)@),
        forall|key: (bool, Seq<char>)| #[trigger] with_key(final(items)@, key) == with_key(old(items)@, key),
{
    broadcast use vstd::seq_lib::group_to_multiset_ensures;

    let ghost orig = items@;
    let mut src: Vec<CachedItem> = Vec::new();
    std::mem::swap(&mut src, items);
    let mut out: Vec<CachedItem> = Vec::new();
    let mut keys: Vec<(bool, Vec<char>)> = Vec::new();
    proof {
        assert(out@.to_multiset() =~= vstd::multiset::Multiset::<CachedItem>::empty());
        assert forall|key: (bool, Seq<char>)| #[trigger] with_key(orig, key) == with_key(out@, key)
            + with_key(src@, key) by {
            assert(with_key(out@, key) == Seq::<CachedItem>::empty());
            assert(Seq::<CachedItem>::empty() + with_key(src@, key) =~= with_key(src@, key));
        }
    }
    while src.len() > 0
        invariant
            out@.to_multiset().add(src@.to_multiset()) == orig.to_multiset(),
            children_sorted(out@),
            keys.len() == out.len(),
            forall|q: int|
                0 <= q < out.len() ==> (#[trigger] keys@[q].0, keys@[q].1@) == child_key(out@[q]),
            forall|key: (bool, Seq<char>)|
                #[trigger] with_key(orig, key) == with_key(out@, key) + with_key(src@, key),
        decreases src.len(),
    {
        let ghost src_before = src@;
        let x = src.remove(0);
        proof {
            src_before.to_multiset_ensures();
            assert(src_before[0] == x);
            assert(src_before.contains(x));
            assert(src_before.to_multiset() =~= src@.to_multiset().insert(x)) by {
                assert(src_before.remove(0) =~= src@);
            }
        }
        let k = child_key_exec(&x);
        let mut p: usize = 0;
        while p < out.len() && !child_key_before_exec(&k, &keys[p])
            invariant
                p <= out.len(),
                keys.len() == out.len(),
                (k.0, k.1@) == child_key(x),
                forall|q: int|
                    0 <= q < p ==> !child_key_before((k.0, k.1@), (#[trigger] keys@[q].0, keys@[q].1@)),
            decreases out.len() - p,
        {
            p = p + 1;
        }
        let ghost out_before = out@;
        let ghost keys_before = keys@;
        proof {
            assert forall|q: int| p <= q < out_before.len() implies child_key(#[trigger] out_before[q]) != (k.0, k.1@) by {
                let kp = child_key(out_before[p as int]);
                let kq = child_key(out_before[q]);
                assert(kp == (keys@[p as int].0, keys@[p as int].1@));
                assert(kq == (keys@[q].0, keys@[q].1@));
                assert(child_key_before((k.0, k.1@), kp));
                if q > p {
                    assert(!child_key_before(kq, kp));
                    lemma_child_key_mixed((k.0, k.1@), kp, kq);
                }
                lemma_lex_irreflexive(k.1@);
            }
        }
        proof {
            assert forall|q: int| p <= q < out_before.len() implies !child_key_before(
                child_key(out_before[q]),
                (k.0, k.1@),
            ) by {
                assert((keys@[q].0, keys@[q].1@) == child_key(out@[q]));
                assert((keys@[p as int].0, keys@[p as int].1@) == child_key(out@[p as int]));
                let kp = child_key(out_before[p as int]);
                let kq = child_key(out_before[q]);
                if q > p {
                    assert(!child_key_before(kq, kp));
                    lemma_child_key_mixed((k.0, k.1@), kp, kq);
                } else {
                    lemma_lex_irreflexive(kp.1);
                    lemma_child_key_mixed((k.0, k.1@), kp, kp);
                }
                if child_key_before(kq, (k.0, k.1@)) {
                    if kq.0 == k.0 {
                        lemma_lex_asymmetric(kq.1, k.1@);
                    }
                }
            }
        }
        out.insert(p, x);
        keys.insert(p, k);
        proof {
            let kx = (k.0, k.1@);
            assert(src_before =~= seq![x] + src@);
            assert(out@ =~= out_before.take(p as int) + seq![x] + out_before.skip(p as int));
            assert(out_before =~= out_before.take(p as int) + out_before.skip(p as int));
            lemma_with_key_single(x, kx);
            assert forall|q: int| 0 <= q < out_before.skip(p as int).len() implies child_key(
                #[trigger] out_before.skip(p as int)[q],
            ) != kx by {
                assert(out_before.skip(p as int)[q] == out_before[p + q]);
            }
            lemma_with_key_none(out_before.skip(p as int), kx);
            assert forall|key: (bool, Seq<char>)| #[trigger] with_key(orig, key) == with_key(out@, key)
                + with_key(src@, key) by {
                let t = out_before.take(p as int);
                let u = out_before.skip(p as int);
                lemma_with_key_add(t + seq![x], u, key);
                lemma_with_key_add(t, seq![x], key);
                lemma_with_key_add(t, u, key);
                lemma_with_key_add(seq![x], src@, key);
                lemma_with_key_single(x, key);
                assert(with_key(orig, key) == with_key(out_before, key) + with_key(src_before, key));
                if key == kx {
                    assert(with_key(out@, key) + with_key(src@, key) =~= with_key(out_before, key)
                        + with_key(src_before, key));
                } else {
                    assert(with_key(out@, key) + with_key(src@, key) =~= with_key(out_before, key)
                        + with_key(src_before, key));
                }
            }
            assert(out@.remove(p as int) =~= out_before);
            assert(out@[p as int] == x);
            out@.to_multiset_ensures();
            assert(out@.contains(x));
            assert(out@.to_multiset().remove(x) == out_before.to_multiset());
            assert(out@.to_multiset() =~= out_before.to_multiset().insert(x));
            assert(out@.to_multiset().add(src@.to_multiset()) =~= orig.to_multiset());
            assert forall|q: int| 0 <= q < out.len() implies (#[trigger] keys@[q].0, keys@[q].1@)
                == child_key(out@[q]) by {
                if q < p {
                    assert(keys@[q] == keys_before[q]);
                    assert(out@[q] == out_before[q]);
                } else if q > p {
                    assert(keys@[q] == keys_before[q - 1]);
                    assert(out@[q] == out_before[q - 1]);
                }
            }
            assert forall|i: int, j: int| 0 <= i < j < out@.len() implies !child_key_before(
                child_key(out@[j]),
                child_key(out@[i]),
            ) by {
                if j < p {
                    assert(out@[i] == out_before[i] && out@[j] == out_before[j]);
                } else if i > p {
                    assert(out@[i] == out_before[i - 1] && out@[j] == out_before[j - 1]);
                } else if i == p {
                    assert(out@[j] == out_before[j - 1]);
                } else if j == p {
                    assert(out@[i] == out_before[i]);
                    assert((keys_before[i].0, keys_before[i].1@) == child_key(out_before[i]));
                    assert(!child_key_before((k.0, k.1@), (keys_before[i].0, keys_before[i].1@)));
                } else {
                    assert(out@[i] == out_before[i] && out@[j] == out_before[j - 1]);
                }
            }
        }
    }
    proof {
        assert forall|key: (bool, Seq<char>)| #[trigger] with_key(out@, key) == with_key(orig, key) by {
            assert(with_key(orig, key) == with_key(out@, key) + with_key(src@, key));
            assert(with_key(src@, key) == Seq::<CachedItem>::empty());
            assert(with_key(out@, key) + Seq::<CachedItem>::empty() =~= with_key(out@, key));
        }
        assert(src@.to_multiset() =~= vstd::multiset::Multiset::<CachedItem>::empty());
        assert(out@.to_multiset().add(vstd::multiset::Multiset::<CachedItem>::empty())
            =~= out@.to_multiset());
    }
    *items = out;
}

/// A sorted listing shows every folder before every file.
pub proof fn lemma_sorted_children_folders_first(s: Seq<CachedItem>, i: int, j: int)
    requires
        children_sorted(s),
        0 <= i < j < s.len(),
        s[j].is_dir,
    ensures
        s[i].is_dir,
{
    assert(!child_key_before(child_key(s[j]), child_key(s[i])));
}

// ── Request paths ───────────────────────────────────────────────────────

/// Splitting bytes on `/`: the completed non-empty pieces and the piece
/// being read.
pub open spec fn segment_state(bytes: Seq<u8>) -> (Seq<Seq<u8>>, Seq<u8>)
    decreases bytes.len(),
{
    if bytes.len() == 0 {
        (Seq::empty(), Seq::empty())
    } else {
        let (done, cur) = segment_state(bytes.drop_last());
        if bytes.last() == 0x2f {
            if cur.len() > 0 {
                (done.push(cur), Seq::empty())
            } else {
                (done, Seq::empty())
            }
        } else {
            (done, cur.push(bytes.last()))
        }
    }
}

/// The non-empty `/`-separated pieces of a byte path.
pub open spec fn byte_segments(bytes: Seq<u8>) -> Seq<Seq<u8>> {
    let (done, cur) = segment_state(bytes);
    if cur.len() > 0 {
        done.push(cur)
    } else {
        done
    }
}

/// Text of a byte string as `String::from_utf8_lossy` decodes it.
pub uninterp spec fn utf8_lossy(bytes: Seq<u8>) -> Seq<char>;

/// `String::from_utf8_lossy`: the text of `bytes`, with invalid sequences
/// replaced; valid UTF-8 decodes exactly (as its documentation states).
#[verifier::external_body]
fn from_utf8_lossy(bytes: &[u8]) -> (s: String)
    ensures
        s@ == utf8_lossy(bytes@),
        vstd::utf8::valid_utf8(bytes@) ==> s@ == vstd::utf8::decode_utf8(bytes@),
{
    String::from_utf8_lossy(bytes).into_owned()
}

/// The lossy UTF-8 text of bytes (see `utf8_lossy`).
pub fn from_utf8_lossy_text(bytes: &[u8]) -> (s: String)
    ensures
        s@ == utf8_lossy(bytes@),
{
    from_utf8_lossy(bytes)
}

/// Decoded URL path bytes → canonical relative path segments: the
/// non-empty `/`-separated pieces, each decoded lossily. The mount root is
/// the empty list.
pub fn decode_segments(path_bytes: &[u8]) -> (out: Vec<String>)
    ensures
        out@.len() == byte_segments(path_bytes@).len(),
        forall|i: int|
            0 <= i < out@.len() ==> #[trigger] out@[i]@ == utf8_lossy(byte_segments(path_bytes@)[i]),
{
    let mut done: Vec<Vec<u8>> = Vec::new();
    let mut cur: Vec<u8> = Vec::new();
    let mut i: usize = 0;
    while i < path_bytes.len()
        invariant
            i <= path_bytes.len(),
            (done@.map_values(|x: Vec<u8>| x@), cur@) == segment_state(path_bytes@.take(i as int)),
        decreases path_bytes.len() - i,
    {
        proof {
            assert(path_bytes@.take(i + 1).drop_last() =~= path_bytes@.take(i as int));
        }
        let b = path_bytes[i];
        let ghost done0 = done@.map_values(|x: Vec<u8>| x@);
        let ghost cur0 = cur@;
        if b == 0x2f {
            if cur.len() > 0 {
                let mut piece: Vec<u8> = Vec::new();
                std::mem::swap(&mut piece, &mut cur);
                done.push(piece);
                proof {
                    assert(cur@ =~= Seq::<u8>::empty());
                    assert(done@.map_values(|x: Vec<u8>| x@) =~= done0.push(cur0));
                }
            } else {
                proof {
                    assert(cur@ =~= Seq::<u8>::empty());
                }
            }
        } else {
            cur.push(b);
            proof {
                assert(done@.map_values(|x: Vec<u8>| x@) =~= done0);
            }
        }
        i = i + 1;
    }
    proof {
        assert(path_bytes@.take(path_bytes@.len() as int) =~= path_bytes@);
    }
    let ghost done1 = done@.map_values(|x: Vec<u8>| x@);
    let ghost cur1 = cur@;
    if cur.len() > 0 {
        done.push(cur);
        proof {
            assert(done@.map_values(|x: Vec<u8>| x@) =~= done1.push(cur1));
        }
    }
    let ghost segs = done@.map_values(|x: Vec<u8>| x@);
    assert(segs == byte_segments(path_bytes@));
    let mut out: Vec<String> = Vec::new();
    let mut k: usize = 0;
    while k < done.len()
        invariant
            k <= done.len(),
            segs == done@.map_values(|x: Vec<u8>| x@),
            out@.len() == k,
            forall|q: int| 0 <= q < k ==> #[trigger] out@[q]@ == utf8_lossy(segs[q]),
        decreases done.len() - k,
    {
        out.push(from_utf8_lossy(done[k].as_slice()));
        proof {
            assert(segs[k as int] == done@[k as int]@);
        }
        k = k + 1;
    }
    out
}

// ── Graph URLs ──────────────────────────────────────────────────────────

/// One path segment as Graph path addressing needs it encoded.
pub open spec fn encoded_segment(s: Seq<char>) -> Seq<char> {
    percent_encoded(vstd::utf8::encode_utf8(s), |b: u8| is_graph_segment_byte(b))
}

/// `{base}/drives/{drive}/root` (or `items/{root item}` for a subtree
/// mount), followed by Graph colon syntax `:/a/b` for a nested path.
pub open spec fn graph_path_url(
    base: Seq<char>,
    drive_id: Seq<char>,
    root_item_id: Seq<char>,
    segments: Seq<Seq<char>>,
) -> Seq<char> {
    let root_part = if root_item_id.len() == 0 {
        "root"@
    } else {
        "items/"@ + root_item_id
    };
    let head = base + "/drives/"@ + drive_id + "/"@ + root_part;
    if segments.len() == 0 {
        head
    } else {
        head + ":/"@ + join(segments.map_values(|s: Seq<char>| encoded_segment(s)), "/"@)
    }
}

/// The Graph URL of a mount-relative path (see `graph_path_url`).
pub fn graph_item_path_url(
    base: &str,
    drive_id: &str,
    root_item_id: &str,
    rel_segments: &[String],
) -> (url: String)
    ensures
        url@ == graph_path_url(
            base@,
            drive_id@,
            root_item_id@,
            rel_segments@.map_values(|s: String| s@),
        ),
{
    let mut out: Vec<char> = Vec::new();
    extend_str(&mut out, base);
    extend_str(&mut out, "/drives/");
    extend_str(&mut out, drive_id);
    extend_str(&mut out, "/");
    let root_chars = chars_of(root_item_id);
    if root_chars.len() == 0 {
        extend_str(&mut out, "root");
    } else {
        extend_str(&mut out, "items/");
        extend_str(&mut out, root_item_id);
    }
    let ghost segs = rel_segments@.map_values(|s: String| s@);
    if rel_segments.len() == 0 {
        proof {
            assert(out@ =~= graph_path_url(base@, drive_id@, root_item_id@, segs));
        }
        return string_of(out.as_slice());
    }
    let mut encoded: Vec<Vec<char>> = Vec::new();
    let mut i: usize = 0;
    while i < rel_segments.len()
        invariant
            i <= rel_segments.len(),
            segs == rel_segments@.map_values(|s: String| s@),
            encoded.deep_view() == segs.take(i as int).map_values(
                |s: Seq<char>| encoded_segment(s),
            ),
        decreases rel_segments.len() - i,
    {
        let e = percent_encode_graph_segment(rel_segments[i].as_str());
        let ghost enc0 = encoded.deep_view();
        let ec = chars_of(e.as_str());
        proof {
            assert(ec.deep_view() =~= ec@);
        }
        encoded.push(ec);
        proof {
            assert(segs[i as int] == rel_segments@[i as int]@);
            assert(encoded.deep_view() =~= enc0.push(e@));
            assert(encoded.deep_view() =~= segs.take(i + 1).map_values(
                |s: Seq<char>| encoded_segment(s),
            ));
        }
        i = i + 1;
    }
    proof {
        assert(segs.take(segs.len() as int) =~= segs);
    }
    extend_str(&mut out, ":/");
    let sep = chars_of("/");
    let joined = join_chars(&encoded, sep.as_slice());
    extend_chars(&mut out, joined.as_slice());
    proof {
        assert(out@ =~= graph_path_url(base@, drive_id@, root_item_id@, segs));
    }
    string_of(out.as_slice())
}

// ── Graph items as WebDAV metadata ──────────────────────────────────────

/// The fields of a Graph drive item that WebDAV metadata needs, as Graph
/// sends them (dates as RFC 3339 text).
#[derive(Debug, Clone)]
pub struct RawItem {
    pub id: String,
    pub name: String,
    pub size: u64,
    pub is_folder: bool,
    pub mime_type: Option<String>,
    pub e_tag: Option<String>,
    pub last_modified_date_time: Option<String>,
    pub created_date_time: Option<String>,
}

/// The Unix time of an optional RFC 3339 text, where it parses.
pub open spec fn opt_timestamp(s: Option<String>) -> Option<i64> {
    match s {
        Some(t) => rfc3339_timestamp(t@),
        None => None,
    }
}

fn parse_opt_timestamp(s: &Option<String>) -> (r: Option<i64>)
    ensures
        r == opt_timestamp(*s),
{
    match s {
        Some(t) => parse_rfc3339_timestamp(t.as_str()),
        None => None,
    }
}

/// The cached form of a Graph item.
pub fn raw_to_cached(raw: RawItem) -> (item: CachedItem)
    ensures
        item.id == raw.id,
        item.name == raw.name,
        item.size == raw.size,
        item.is_dir == raw.is_folder,
        item.mime == raw.mime_type,
        item.etag == raw.e_tag,
        item.modified == opt_timestamp(raw.last_modified_date_time),
        item.created == opt_timestamp(raw.created_date_time),
{
    let modified = parse_opt_timestamp(&raw.last_modified_date_time);
    let created = parse_opt_timestamp(&raw.created_date_time);
    CachedItem {
        id: raw.id,
        name: raw.name,
        size: raw.size,
        is_dir: raw.is_folder,
        mime: raw.mime_type,
        etag: raw.e_tag,
        modified,
        created,
    }
}

/// WebDAV metadata of a cached item.
#[derive(Debug, Clone)]
pub struct GraphMeta(pub CachedItem);

impl GraphMeta {
    /// Size in bytes.
    pub fn len(&self) -> (n: u64)
        ensures
            n == self.0.size,
    {
        self.0.size
    }

    /// Last modification (Unix seconds), where Graph reported one.
    pub fn modified(&self) -> (t: Option<i64>)
        ensures
            t == self.0.modified,
    {
        self.0.modified
    }

    /// Creation (Unix seconds), where Graph reported one.
    pub fn created(&self) -> (t: Option<i64>)
        ensures
            t == self.0.created,
    {
        self.0.created
    }

    /// Whether the item is a folder.
    pub fn is_dir(&self) -> (b: bool)
        ensures
            b == self.0.is_dir,
    {
        self.0.is_dir
    }

    /// The entity tag, where Graph reported one.
    pub fn etag(&self) -> (e: Option<String>)
        ensures
            e == self.0.etag,
    {
        match &self.0.etag {
            Some(s) => Some(s.clone()),
            None => None,
        }
    }
}

/// The WebDAV failure an application error is reported as.
#[derive(Debug, Clone, Copy, PartialEq, Eq, Structural)]
pub enum FsErrorKind {
    NotFound,
    Forbidden,
    GeneralFailure,
}

/// Graph 404 is "not found"; 401, 403 and authentication failures are
/// "forbidden"; anything else is a general failure.
pub open spec fn fs_error_of(err: AppError) -> FsErrorKind {
    match err {
        AppError::GraphApi { status_code, .. } => if status_code == 404 {
            FsErrorKind::NotFound
        } else if status_code == 401 || status_code == 403 {
            FsErrorKind::Forbidden
        } else {
            FsErrorKind::GeneralFailure
        },
        AppError::Auth { .. } => FsErrorKind::Forbidden,
        _ => FsErrorKind::GeneralFailure,
    }
}

/// The WebDAV failure for an application error (see `fs_error_of`).
pub fn fs_error(err: &AppError) -> (k: FsErrorKind)
    ensures
        k == fs_error_of(*err),
{
    match err {
        AppError::GraphApi { status_code, .. } => if *status_code == 404 {
            FsErrorKind::NotFound
        } else if *status_code == 401 || *status_code == 403 {
            FsErrorKind::Forbidden
        } else {
            FsErrorKind::GeneralFailure
        },
        AppError::Auth { .. } => FsErrorKind::Forbidden,
        _ => FsErrorKind::GeneralFailure,
    }
}

} // verus!
