//! Direct download links for SharePoint and OneDrive sharing links: the
//! short `/:w:/p/{user}/{share}` form and the personal
//! `/personal/{user}/...?e={share}` form both lead to
//! `https://{host}/personal/{user}/_layouts/52/download.aspx?share={share}`.

use vstd::prelude::*;
use crate::sessions::fields_view;
use crate::text::{
    chars_eq_str, chars_of, contains_seq, eq_ignore_ascii_case, eq_ignore_ascii_case_chars,
    ends_with_chars, extend_chars, extend_str, find_chars, has_suffix, lowercase_chars, split_char, split_chars, string_of,
    unicode_lowercase,
};
use crate::transcript::{non_empty, non_empty_parts};

verus! {

/// Name for what `url::Url::parse` gives for `url`: `None` where it refuses
/// the text, else the host (`host_str`), the path and the decoded query
/// pairs in order (`query_pairs`).
pub uninterp spec fn parsed_url(url: Seq<char>) -> Option<(Option<Seq<char>>, Seq<char>, Seq<(Seq<char>, Seq<char>)>)>;

/// The view of an optional string.
pub open spec fn opt_str(o: Option<String>) -> Option<Seq<char>> {
    match o {
        Some(s) => Some(s@),
        None => None,
    }
}

/// Calls `url::Url::parse` and reads `host_str`, `path` and `query_pairs`
/// of the result. The parse itself (WHATWG URL rules) is named, not restated.
#[verifier::external_body]
fn url_parts(url: &str) -> (r: Option<(Option<String>, String, Vec<(String, String)>)>)
    ensures
        match r {
            None => parsed_url(url@) is None,
            Some(p) => parsed_url(url@) == Some((opt_str(p.0), p.1@, fields_view(p.2@))),
        },
{
    match url::Url::parse(url) {
        Ok(u) => Some((u.host_str().map(String::from), u.path().to_string(), u.query_pairs().into_owned().collect())),
        Err(_) => None,
    }
}

/// The non-empty `/`-separated segments of a path.
pub open spec fn path_segments(path: Seq<char>) -> Seq<Seq<char>> {
    non_empty(split_char(path, '/'))
}

/// The type letters of a file sharing link (`:w:` Word, `:x:` Excel,
/// `:p:` PowerPoint, `:b:` PDF and the others Microsoft hands out); `:f:`
/// (a folder) is not among them.
pub open spec fn is_file_type_letter(c: char) -> bool {
    c == 'w' || c == 'x' || c == 'p' || c == 'b' || c == 'u' || c == 'o' || c == 't' || c == 'v'
}

/// A segment of the form `:c:` with `c` a file type letter.
pub open spec fn is_file_type_marker(t: Seq<char>) -> bool {
    t.len() == 3 && t[0] == ':' && t[2] == ':' && is_file_type_letter(t[1])
}

/// The direct download address of a shared file.
pub open spec fn download_link(host: Seq<char>, user: Seq<char>, share: Seq<char>) -> Seq<char> {
    "https://"@ + host + "/personal/"@ + user + "/_layouts/52/download.aspx?share="@ + share
}

/// The link for a short sharing path `/:c:/{mode}/{user}/{share}/...`:
/// `None` unless it has four segments or more and the first marks a file.
pub open spec fn short_share_link(host: Seq<char>, path: Seq<char>) -> Option<Seq<char>> {
    let segs = path_segments(path);
    if segs.len() >= 4 && is_file_type_marker(segs[0]) {
        Some(download_link(host, segs[2], segs[3]))
    } else {
        None
    }
}

/// The index of the first segment that reads `personal`, in any ASCII case.
pub open spec fn personal_index(segs: Seq<Seq<char>>) -> Option<int>
    decreases segs.len(),
{
    if segs.len() == 0 {
        None
    } else if eq_ignore_ascii_case(segs[0], "personal"@) {
        Some(0)
    } else {
        match personal_index(segs.drop_first()) {
            Some(i) => Some(i + 1),
            None => None,
        }
    }
}

/// The value of the first query pair whose key is `e` or `share`.
pub open spec fn share_token(pairs: Seq<(Seq<char>, Seq<char>)>) -> Option<Seq<char>>
    decreases pairs.len(),
{
    if pairs.len() == 0 {
        None
    } else if pairs[0].0 == "e"@ || pairs[0].0 == "share"@ {
        Some(pairs[0].1)
    } else {
        share_token(pairs.drop_first())
    }
}

/// The link for a personal OneDrive path `/personal/{user}/...` with a
/// share token in the query: `None` where the lowercased path lacks
/// `/personal/`, where no segment after `personal` names the user, or
/// where the query carries no token.
pub open spec fn personal_layout_link(
    host: Seq<char>,
    path: Seq<char>,
    pairs: Seq<(Seq<char>, Seq<char>)>,
) -> Option<Seq<char>> {
    let segs = path_segments(path);
    if !contains_seq(unicode_lowercase(path), "/personal/"@) {
        None
    } else {
        match personal_index(segs) {
            None => None,
            Some(i) => if i + 1 >= segs.len() {
                None
            } else {
                match share_token(pairs) {
                    Some(t) => Some(download_link(host, segs[i + 1], t)),
                    None => None,
                }
            },
        }
    }
}

/// Whether a host belongs to SharePoint (global or operated in China).
pub open spec fn is_sharepoint_host(host: Seq<char>) -> bool {
    has_suffix(host, ".sharepoint.com"@) || has_suffix(host, ".sharepoint.cn"@)
}

/// The download link for a parsed address: `None` without a SharePoint
/// host; else the short form's link, or failing that the personal form's.
pub open spec fn link_from(
    host: Option<Seq<char>>,
    path: Seq<char>,
    pairs: Seq<(Seq<char>, Seq<char>)>,
) -> Option<Seq<char>> {
    match host {
        None => None,
        Some(h) => if !is_sharepoint_host(h) {
            None
        } else {
            match short_share_link(h, path) {
                Some(u) => Some(u),
                None => personal_layout_link(h, path, pairs),
            }
        },
    }
}

/// The download link for a sharing address, given what parsing it gave.
pub open spec fn sharepoint_link(parsed: Option<(Option<Seq<char>>, Seq<char>, Seq<(Seq<char>, Seq<char>)>)>) -> Option<Seq<char>> {
    match parsed {
        None => None,
        Some(p) => link_from(p.0, p.1, p.2),
    }
}

fn segments_of(path: &str) -> (out: Vec<Vec<char>>)
    ensures
        out.deep_view() == path_segments(path@),
{
    let cs = chars_of(path);
    let parts = split_chars(cs.as_slice(), '/');
    non_empty_parts(parts)
}

fn download_link_of(host: &str, user: &[char], share: &[char]) -> (out: String)
    ensures
        out@ == download_link(host@, user@, share@),
{
    let mut v: Vec<char> = chars_of("https://");
    extend_str(&mut v, host);
    extend_str(&mut v, "/personal/");
    extend_chars(&mut v, user);
    extend_str(&mut v, "/_layouts/52/download.aspx?share=");
    extend_chars(&mut v, share);
    string_of(v.as_slice())
}

fn file_type_letter(c: char) -> (r: bool)
    ensures
        r == is_file_type_letter(c),
{
    c == 'w' || c == 'x' || c == 'p' || c == 'b' || c == 'u' || c == 'o' || c == 't' || c == 'v'
}

/// The direct download link for a short sharing path such as
/// `/:w:/p/{user}/{share}` (see `short_share_link`).
pub fn parse_short_share_url(host: &str, path: &str) -> (r: Option<String>)
    ensures
        opt_str(r) == short_share_link(host@, path@),
{
    let segs = segments_of(path);
    if segs.len() < 4 {
        return None;
    }
    let t = &segs[0];
    proof {
        assert(segs.deep_view()[0] == t@);
        assert(segs.deep_view()[2] == segs[2]@);
        assert(segs.deep_view()[3] == segs[3]@);
    }
    if t.len() == 3 && t[0] == ':' && t[2] == ':' && file_type_letter(t[1]) {
        Some(download_link_of(host, segs[2].as_slice(), segs[3].as_slice()))
    } else {
        None
    }
}

fn personal_position(segs: &Vec<Vec<char>>) -> (r: Option<usize>)
    ensures
        match r {
            Some(i) => personal_index(segs.deep_view()) == Some(i as int) && i < segs.len(),
            None => personal_index(segs.deep_view()) is None,
        },
{
    let ghost sv = segs.deep_view();
    let word = chars_of("personal");
    let mut i: usize = 0;
    proof {
        assert(sv.subrange(0, sv.len() as int) =~= sv);
    }
    while i < segs.len()
        invariant
            i <= segs.len(),
            sv == segs.deep_view(),
            word@ == "personal"@,
            personal_index(sv) == (match personal_index(sv.subrange(i as int, sv.len() as int)) {
                Some(k) => Some(k + i),
                None => None::<int>,
            }),
        decreases segs.len() - i,
    {
        let ghost rest = sv.subrange(i as int, sv.len() as int);
        proof {
            assert(rest[0] == segs[i as int]@);
            assert(rest.drop_first() =~= sv.subrange(i + 1, sv.len() as int));
        }
        if eq_ignore_ascii_case_chars(segs[i].as_slice(), word.as_slice()) {
            return Some(i);
        }
        i = i + 1;
    }
    proof {
        assert(sv.subrange(i as int, sv.len() as int) =~= Seq::<Seq<char>>::empty());
    }
    None
}

fn share_token_of(pairs: &Vec<(String, String)>) -> (r: Option<String>)
    ensures
        opt_str(r) == share_token(fields_view(pairs@)),
{
    let ghost pv = fields_view(pairs@);
    let mut i: usize = 0;
    proof {
        assert(pv.subrange(0, pv.len() as int) =~= pv);
    }
    while i < pairs.len()
        invariant
            i <= pairs.len(),
            pv == fields_view(pairs@),
            share_token(pv) == share_token(pv.subrange(i as int, pv.len() as int)),
        decreases pairs.len() - i,
    {
        let ghost rest = pv.subrange(i as int, pv.len() as int);
        proof {
            assert(rest[0] == (pairs[i as int].0@, pairs[i as int].1@));
            assert(rest.drop_first() =~= pv.subrange(i + 1, pv.len() as int));
        }
        let k = chars_of(pairs[i].0.as_str());
        if chars_eq_str(k.as_slice(), "e") || chars_eq_str(k.as_slice(), "share") {
            let v = chars_of(pairs[i].1.as_str());
            return Some(string_of(v.as_slice()));
        }
        i = i + 1;
    }
    proof {
        assert(pv.subrange(i as int, pv.len() as int) =~= Seq::<(Seq<char>, Seq<char>)>::empty());
    }
    None
}

/// The direct download link for a personal OneDrive path carrying a share
/// token in its query (see `personal_layout_link`).
pub fn parse_personal_layout_url(host: &str, path: &str, pairs: &Vec<(String, String)>) -> (r: Option<String>)
    ensures
        opt_str(r) == personal_layout_link(host@, path@, fields_view(pairs@)),
{
    let pc = chars_of(path);
    let lower = lowercase_chars(pc.as_slice());
    let needle = chars_of("/personal/");
    if find_chars(lower.as_slice(), needle.as_slice()).is_none() {
        return None;
    }
    let segs = segments_of(path);
    let idx = match personal_position(&segs) {
        Some(i) => i,
        None => return None,
    };
    if idx + 1 >= segs.len() {
        return None;
    }
    proof {
        assert(segs.deep_view()[idx + 1] == segs[idx + 1]@);
    }
    match share_token_of(pairs) {
        Some(t) => {
            let tc = chars_of(t.as_str());
            Some(download_link_of(host, segs[idx + 1].as_slice(), tc.as_slice()))
        },
        None => None,
    }
}

fn is_sharepoint_host_str(host: &str) -> (r: bool)
    ensures
        r == is_sharepoint_host(host@),
{
    let h = chars_of(host);
    let a = chars_of(".sharepoint.com");
    let b = chars_of(".sharepoint.cn");
    ends_with_chars(h.as_slice(), a.as_slice()) || ends_with_chars(h.as_slice(), b.as_slice())
}

/// The download link for what parsing a sharing address gave: its host,
/// path and decoded query pairs (see `link_from`).
pub fn link_from_parts(host: &Option<String>, path: &str, pairs: &Vec<(String, String)>) -> (r: Option<String>)
    ensures
        opt_str(r) == link_from(opt_str(*host), path@, fields_view(pairs@)),
{
    match host {
        None => None,
        Some(h) => {
            if !is_sharepoint_host_str(h.as_str()) {
                return None;
            }
            match parse_short_share_url(h.as_str(), path) {
                Some(u) => Some(u),
                None => parse_personal_layout_url(h.as_str(), path, pairs),
            }
        },
    }
}

/// The direct download link for a SharePoint or OneDrive sharing address;
/// `None` for other addresses, folder links, addresses without a share
/// token and text that is no address at all.
pub fn parse_sharepoint_url(url: &str) -> (r: Option<String>)
    ensures
        opt_str(r) == sharepoint_link(parsed_url(url@)),
{
    match url_parts(url) {
        None => None,
        Some(p) => link_from_parts(&p.0, p.1.as_str(), &p.2),
    }
}

// ── Laws of the short links ─────────────────────────────────────────────

/// Whether `s` holds no `/`.
pub open spec fn slash_free(s: Seq<char>) -> bool {
    forall|i: int| 0 <= i < s.len() ==> s[i] != '/'
}

proof fn lemma_split_has_a_piece(s: Seq<char>)
    ensures
        split_char(s, '/').len() >= 1,
    decreases s.len(),
{
    if s.len() > 0 {
        lemma_split_has_a_piece(s.drop_last());
    }
}

proof fn lemma_split_whole(s: Seq<char>)
    requires
        slash_free(s),
    ensures
        split_char(s, '/') == seq![s],
    decreases s.len(),
{
    if s.len() > 0 {
        lemma_split_whole(s.drop_last());
        assert(s.drop_last().push(s.last()) =~= s);
        assert(seq![s.drop_last()].update(0, s.drop_last().push(s.last())) =~= seq![s]);
    } else {
        assert(s =~= Seq::<char>::empty());
    }
}

proof fn lemma_split_at_slash(a: Seq<char>, b: Seq<char>)
    ensures
        split_char(a + seq!['/'] + b, '/') == split_char(a, '/') + split_char(b, '/'),
    decreases b.len(),
{
    let x = a + seq!['/'];
    assert(x.drop_last() =~= a);
    lemma_split_has_a_piece(a);
    if b.len() == 0 {
        assert(x + b =~= x);
        assert(split_char(a, '/').push(Seq::empty()) =~= split_char(a, '/') + seq![Seq::<char>::empty()]);
    } else {
        let b0 = b.drop_last();
        lemma_split_at_slash(a, b0);
        lemma_split_has_a_piece(b0);
        assert((x + b).drop_last() =~= x + b0);
        assert((x + b).last() == b.last());
        let l = split_char(a, '/');
        let r = split_char(b0, '/');
        if b.last() == '/' {
            assert((l + r).push(Seq::empty()) =~= l + r.push(Seq::empty()));
        } else {
            let p = l + r;
            assert(p.update(p.len() - 1, p.last().push(b.last())) =~= l + r.update(
                r.len() - 1,
                r.last().push(b.last()),
            ));
        }
    }
}

proof fn lemma_non_empty_add(a: Seq<Seq<char>>, b: Seq<Seq<char>>)
    ensures
        non_empty(a + b) == non_empty(a) + non_empty(b),
    decreases b.len(),
{
    if b.len() == 0 {
        assert(a + b =~= a);
        assert(non_empty(a) + non_empty(b) =~= non_empty(a));
    } else {
        lemma_non_empty_add(a, b.drop_last());
        assert((a + b).drop_last() =~= a + b.drop_last());
        assert((a + b).last() == b.last());
        if b.last().len() > 0 {
            assert((non_empty(a) + non_empty(b.drop_last())).push(b.last()) =~= non_empty(a) + non_empty(
                b.drop_last(),
            ).push(b.last()));
        }
    }
}

/// The segments of `/{t}/{m}/{u}/{s}` with all four pieces non-empty and
/// free of `/` are exactly those four.
proof fn lemma_four_segments(t: Seq<char>, m: Seq<char>, u: Seq<char>, s: Seq<char>)
    requires
        slash_free(t) && slash_free(m) && slash_free(u) && slash_free(s),
        t.len() > 0 && m.len() > 0 && u.len() > 0 && s.len() > 0,
    ensures
        path_segments(seq!['/'] + t + seq!['/'] + m + seq!['/'] + u + seq!['/'] + s) == seq![t, m, u, s],
{
    let e = Seq::<char>::empty();
    let p1 = e + seq!['/'] + t;
    let p2 = p1 + seq!['/'] + m;
    let p3 = p2 + seq!['/'] + u;
    let p4 = p3 + seq!['/'] + s;
    assert(p4 =~= seq!['/'] + t + seq!['/'] + m + seq!['/'] + u + seq!['/'] + s);
    lemma_split_at_slash(e, t);
    lemma_split_at_slash(p1, m);
    lemma_split_at_slash(p2, u);
    lemma_split_at_slash(p3, s);
    lemma_split_whole(t);
    lemma_split_whole(m);
    lemma_split_whole(u);
    lemma_split_whole(s);
    let parts = seq![e, t, m, u, s];
    assert(split_char(e, '/') == seq![e]);
    assert(split_char(p4, '/') =~= parts);
    assert(parts =~= seq![e] + seq![t] + seq![m] + seq![u] + seq![s]);
    lemma_non_empty_add(seq![e], seq![t]);
    lemma_non_empty_add(seq![e] + seq![t], seq![m]);
    lemma_non_empty_add(seq![e] + seq![t] + seq![m], seq![u]);
    lemma_non_empty_add(seq![e] + seq![t] + seq![m] + seq![u], seq![s]);
    assert(non_empty(Seq::<Seq<char>>::empty()) =~= Seq::<Seq<char>>::empty());
    assert(seq![e].drop_last() =~= Seq::<Seq<char>>::empty());
    assert(non_empty(seq![e]) =~= Seq::<Seq<char>>::empty());
    assert(seq![t].drop_last() =~= Seq::<Seq<char>>::empty());
    assert(non_empty(seq![t]) =~= seq![t]);
    assert(seq![m].drop_last() =~= Seq::<Seq<char>>::empty());
    assert(non_empty(seq![m]) =~= seq![m]);
    assert(seq![u].drop_last() =~= Seq::<Seq<char>>::empty());
    assert(non_empty(seq![u]) =~= seq![u]);
    assert(seq![s].drop_last() =~= Seq::<Seq<char>>::empty());
    assert(non_empty(seq![s]) =~= seq![s]);
    assert(path_segments(p4) =~= seq![t, m, u, s]);
}

/// Every file sharing link downloads: a short link
/// `/:c:/{mode}/{user}/{share}` whose marker letter is one of `w` (Word),
/// `x` (Excel), `p` (PowerPoint), `b` (PDF), `u`, `o`, `t`, `v` leads to
/// the download address of `share` under `user`, whatever the mode, user
/// and share; a folder link `:f:` leads nowhere.
pub proof fn lemma_file_links_download(host: Seq<char>, c: char, mode: Seq<char>, user: Seq<char>, share: Seq<char>)
    requires
        slash_free(mode) && slash_free(user) && slash_free(share),
        mode.len() > 0 && user.len() > 0 && share.len() > 0,
    ensures
        (c == 'w' || c == 'x' || c == 'p' || c == 'b' || c == 'u' || c == 'o' || c == 't' || c == 'v')
            ==> short_share_link(
            host,
            seq!['/', ':', c, ':', '/'] + mode + seq!['/'] + user + seq!['/'] + share,
        ) == Some(download_link(host, user, share)),
        short_share_link(
            host,
            seq!['/', ':', 'f', ':', '/'] + mode + seq!['/'] + user + seq!['/'] + share,
        ) is None,
{
    let t = seq![':', c, ':'];
    if c != '/' {
        assert(slash_free(t));
        lemma_four_segments(t, mode, user, share);
        assert(seq!['/'] + t + seq!['/'] + mode + seq!['/'] + user + seq!['/'] + share =~= seq![
            '/',
            ':',
            c,
            ':',
            '/',
        ] + mode + seq!['/'] + user + seq!['/'] + share);
    }
    let f = seq![':', 'f', ':'];
    assert(slash_free(f));
    lemma_four_segments(f, mode, user, share);
    assert(seq!['/'] + f + seq!['/'] + mode + seq!['/'] + user + seq!['/'] + share =~= seq![
        '/',
        ':',
        'f',
        ':',
        '/',
    ] + mode + seq!['/'] + user + seq!['/'] + share);
}

} // verus!
