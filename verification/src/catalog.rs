//! The drive catalog's logic: how Graph listings become catalog paths, what
//! each user action writes (browsing, search hits with their ancestor
//! folders, AI reads), how queries are planned, and how deep indexing
//! walks a drive. The SQLite storage itself lives with the application.

use vstd::prelude::*;
use crate::models::CloudEnvironment;
use crate::text::{
    chars_of, extend_chars, extend_str, first_occurrence, has_prefix, last_index_of, rfind_char,
    slice_chars, string_of,
};

verus! {

/// Event name of catalog progress updates.
pub const CATALOG_EVENT: &'static str = "catalog-event";

/// Depth a deep index walks to unless asked otherwise.
pub const DEFAULT_MAX_DEPTH: usize = 5;

/// Deepest a deep index may walk.
pub const MAX_ALLOWED_DEPTH: usize = 10;

/// Progress of seeding or indexing a drive.
#[derive(Debug, Clone)]
pub struct CatalogEvent {
    pub account_id: String,
    pub drive_id: String,
    /// `seeding`, `ready`, `failed`, `indexing` or `cancelled`.
    pub status: String,
    pub visited_nodes: i64,
    pub current_path: String,
}

/// One child entry of a Graph children listing.
#[derive(Debug, Clone)]
pub struct ChildEntry {
    pub item_id: String,
    pub name: String,
    /// Relative to the drive root.
    pub path: String,
    pub kind: String,
}

/// Registry entry of one indexed drive.
#[derive(Debug, Clone)]
pub struct CatalogDrive {
    pub account_id: String,
    pub cloud_env: String,
    pub drive_id: String,
    pub kind: String,
    pub name: String,
    pub site_name: String,
    pub status: String,
    pub node_count: i64,
    pub last_used_at: i64,
}

/// A node to write into the catalog; `desc` is optional one-line context.
#[derive(Debug, Clone)]
pub struct CatalogNodeInput {
    pub path: String,
    pub item_id: String,
    pub name: String,
    /// `folder` or `file`.
    pub kind: String,
    pub desc: String,
}

/// Where the catalog database lives: `catalog.db` in a directory.
#[derive(Debug, Clone)]
pub struct CatalogStore {
    pub dir: String,
    pub file_name: String,
}

impl CatalogStore {
    /// The catalog of the data directory `base_path`.
    pub fn new(base_path: &str) -> (s: CatalogStore)
        ensures
            s.dir@ == base_path@,
            s.file_name@ == "catalog.db"@,
    {
        CatalogStore { dir: base_path.to_owned(), file_name: "catalog.db".to_owned() }
    }

    /// The database file's path.
    pub fn db_path(&self) -> (r: String)
        ensures
            r@ == crate::download::joined_path(self.dir@, self.file_name@),
    {
        crate::download::join_path(self.dir.as_str(), self.file_name.as_str())
    }
}

/// One item listed while the user browsed a folder.
#[derive(Debug, Clone)]
pub struct BrowseItem {
    pub item_id: String,
    pub name: String,
    /// Full path relative to the drive root.
    pub path: String,
    pub kind: String,
}

/// One search or grounding hit.
#[derive(Debug, Clone)]
pub struct HitInput {
    pub path: String,
    pub item_id: String,
    pub name: String,
    pub kind: String,
    pub desc: String,
}

/// One query result: a node and the drive and site it belongs to.
#[derive(Debug, Clone)]
pub struct CatalogHit {
    pub account_id: String,
    pub cloud_env: String,
    pub drive_id: String,
    pub drive_name: String,
    pub site_name: String,
    pub path: String,
    pub item_id: String,
    pub name: String,
    pub kind: String,
    pub desc: String,
    pub visit_count: i64,
}

/// One account a query may return hits from.
#[derive(Debug, Clone)]
pub struct AccountKey {
    pub account_id: String,
    pub cloud_env: String,
}

/// The name a cloud is stored under.
pub fn env_str(env: &CloudEnvironment) -> (s: &'static str)
    ensures
        s@ == crate::auth::env_name(*env),
{
    match env {
        CloudEnvironment::Global => "global",
        CloudEnvironment::China => "china",
    }
}

// ── Paths ───────────────────────────────────────────────────────────────

/// Graph's `parentReference.path` (`/drive/root:/a/b`) as a path relative
/// to the drive root (`a/b`): what follows the first `:/`, or nothing.
pub open spec fn root_relative(parent_path: Seq<char>) -> Seq<char> {
    match first_occurrence(parent_path, ":/"@) {
        Some(i) => parent_path.subrange(i + 2, parent_path.len() as int),
        None => Seq::empty(),
    }
}

/// Converts Graph's `parentReference.path` into a drive-root-relative path
/// (see `root_relative`).
pub fn relative_root_path(parent_path: &str) -> (r: String)
    ensures
        r@ == root_relative(parent_path@),
{
    let v = chars_of(parent_path);
    let sep = chars_of(":/");
    proof {
        reveal_strlit(":/");
    }
    match crate::text::find_chars(v.as_slice(), sep.as_slice()) {
        Some(i) => string_of(slice_chars(v.as_slice(), i + 2, v.len()).as_slice()),
        None => String::new(),
    }
}

/// `base/name`, or `name` alone when `base` is empty.
pub open spec fn joined(base: Seq<char>, name: Seq<char>) -> Seq<char> {
    if base.len() == 0 {
        name
    } else {
        base + "/"@ + name
    }
}

fn join_path_text(base: &[char], name: &str) -> (r: String)
    ensures
        r@ == joined(base@, name@),
{
    if base.len() == 0 {
        name.to_owned()
    } else {
        let mut out: Vec<char> = Vec::new();
        extend_chars(&mut out, base);
        extend_str(&mut out, "/");
        extend_str(&mut out, name);
        string_of(out.as_slice())
    }
}

/// The catalog entry of a listed Graph item: its path under the drive root
/// and whether it is a folder.
pub fn child_entry(item_id: String, name: String, parent_path: Option<&str>, is_folder: bool) -> (e: ChildEntry)
    ensures
        e.item_id == item_id,
        e.name == name,
        e.path@ == joined(
            match parent_path {
                Some(p) => root_relative(p@),
                None => Seq::empty(),
            },
            name@,
        ),
        e.kind@ == if is_folder {
            "folder"@
        } else {
            "file"@
        },
{
    let base = match parent_path {
        Some(p) => relative_root_path(p),
        None => String::new(),
    };
    let b = chars_of(base.as_str());
    let path = join_path_text(b.as_slice(), name.as_str());
    let kind = if is_folder {
        "folder".to_owned()
    } else {
        "file".to_owned()
    };
    ChildEntry { item_id, name, path, kind }
}

/// The parent of a catalog path: everything before its last `/`, or empty.
pub open spec fn parent_of(path: Seq<char>) -> Seq<char> {
    match last_index_of(path, '/') {
        Some(i) => path.subrange(0, i),
        None => Seq::empty(),
    }
}

/// The last segment of a catalog path.
pub open spec fn last_segment(path: Seq<char>) -> Seq<char> {
    match last_index_of(path, '/') {
        Some(i) => path.subrange(i + 1, path.len() as int),
        None => path,
    }
}

/// The parent path stored with a node (see `parent_of`).
pub fn parent_path(path: &str) -> (p: String)
    ensures
        p@ == parent_of(path@),
{
    let v = chars_of(path);
    match rfind_char(v.as_slice(), '/') {
        Some(i) => string_of(slice_chars(v.as_slice(), 0, i).as_slice()),
        None => String::new(),
    }
}

// ── Writes ──────────────────────────────────────────────────────────────

/// A node write as text: path, item id, name, kind, desc, visit delta.
pub struct WriteView {
    pub path: Seq<char>,
    pub item_id: Seq<char>,
    pub name: Seq<char>,
    pub kind: Seq<char>,
    pub desc: Seq<char>,
    pub delta: i64,
}

pub open spec fn write_view(w: (CatalogNodeInput, i64)) -> WriteView {
    WriteView {
        path: w.0.path@,
        item_id: w.0.item_id@,
        name: w.0.name@,
        kind: w.0.kind@,
        desc: w.0.desc@,
        delta: w.1,
    }
}

pub open spec fn writes_view(ws: Seq<(CatalogNodeInput, i64)>) -> Seq<WriteView> {
    ws.map_values(|w: (CatalogNodeInput, i64)| write_view(w))
}

pub open spec fn browse_item_write(item: BrowseItem) -> WriteView {
    WriteView { path: item.path@, item_id: item.item_id@, name: item.name@, kind: item.kind@, desc: Seq::empty(), delta: 0 }
}

fn node(path: String, item_id: String, name: String, kind: String, desc: String, delta: i64) -> (w: (CatalogNodeInput, i64))
    ensures
        write_view(w) == (WriteView { path: path@, item_id: item_id@, name: name@, kind: kind@, desc: desc@, delta }),
{
    (CatalogNodeInput { path, item_id, name, kind, desc }, delta)
}

/// What browsing a folder writes: the folder itself with one visit, then
/// every listed child without a visit (children carry fresh ids and names,
/// so renames sync).
pub fn browse_writes(
    folder_path: &str,
    folder_name: &str,
    folder_item_id: &str,
    items: &[BrowseItem],
) -> (ws: Vec<(CatalogNodeInput, i64)>)
    ensures
        writes_view(ws@) == seq![
            WriteView {
                path: folder_path@,
                item_id: folder_item_id@,
                name: folder_name@,
                kind: "folder"@,
                desc: Seq::empty(),
                delta: 1,
            },
        ] + items@.map_values(|i: BrowseItem| browse_item_write(i)),
{
    let mut ws: Vec<(CatalogNodeInput, i64)> = Vec::new();
    ws.push(node(folder_path.to_owned(), folder_item_id.to_owned(), folder_name.to_owned(), "folder".to_owned(), String::new(), 1));
    let ghost head = writes_view(ws@);
    let mut i: usize = 0;
    while i < items.len()
        invariant
            i <= items@.len(),
            writes_view(ws@) == head + items@.take(i as int).map_values(|it: BrowseItem| browse_item_write(it)),
        decreases items.len() - i,
    {
        let it = &items[i];
        let ghost before = writes_view(ws@);
        let w = node(it.path.clone(), it.item_id.clone(), it.name.clone(), it.kind.clone(), String::new(), 0);
        proof {
            assert(write_view(w) == browse_item_write(items@[i as int]));
        }
        ws.push(w);
        proof {
            assert(writes_view(ws@) =~= before.push(write_view(w)));
            assert(items@.take(i + 1) =~= items@.take(i as int).push(items@[i as int]));
            assert(writes_view(ws@) =~= head + items@.take(i + 1).map_values(|it: BrowseItem| browse_item_write(it)));
        }
        i = i + 1;
    }
    proof {
        assert(items@.take(items@.len() as int) =~= items@);
    }
    ws
}

/// What an AI read of a file writes: the file with one visit and its desc
/// (kept only where the catalog has none yet).
pub fn ai_read_writes(path: &str, item_id: &str, name: &str, desc: &str) -> (ws: Vec<(CatalogNodeInput, i64)>)
    ensures
        writes_view(ws@) == seq![
            WriteView { path: path@, item_id: item_id@, name: name@, kind: "file"@, desc: desc@, delta: 1 },
        ],
{
    let mut ws: Vec<(CatalogNodeInput, i64)> = Vec::new();
    ws.push(node(path.to_owned(), item_id.to_owned(), name.to_owned(), "file".to_owned(), desc.to_owned(), 1));
    proof {
        assert(writes_view(ws@) =~= seq![
            WriteView { path: path@, item_id: item_id@, name: name@, kind: "file"@, desc: desc@, delta: 1 },
        ]);
    }
    ws
}

/// Writes planned so far and the paths already written.
pub open spec fn ancestor_writes(st: (Seq<WriteView>, Set<Seq<char>>), p: Seq<char>) -> (Seq<WriteView>, Set<Seq<char>>)
    decreases p.len(),
{
    match last_index_of(p, '/') {
        None => st,
        Some(i) => {
            proof {
                crate::text::lemma_last_index_in_range(p, '/');
            }
            let a = p.subrange(0, i);
            let st2 = if st.1.contains(a) {
                st
            } else {
                (
                    st.0.push(WriteView { path: a, item_id: Seq::empty(), name: last_segment(a), kind: "folder"@, desc: Seq::empty(), delta: 1 }),
                    st.1.insert(a),
                )
            };
            ancestor_writes(st2, a)
        },
    }
}

pub open spec fn hit_step(st: (Seq<WriteView>, Set<Seq<char>>), h: HitInput) -> (Seq<WriteView>, Set<Seq<char>>) {
    let st1 = if st.1.contains(h.path@) {
        st
    } else {
        (
            st.0.push(WriteView { path: h.path@, item_id: h.item_id@, name: h.name@, kind: h.kind@, desc: h.desc@, delta: 1 }),
            st.1.insert(h.path@),
        )
    };
    ancestor_writes(st1, h.path@)
}

pub open spec fn hits_fold(hits: Seq<HitInput>) -> (Seq<WriteView>, Set<Seq<char>>)
    decreases hits.len(),
{
    if hits.len() == 0 {
        (Seq::empty(), Set::empty())
    } else {
        hit_step(hits_fold(hits.drop_last()), hits.last())
    }
}

/// What a round of search hits writes: each hit once with a visit, and
/// each of its ancestor folders once (nearest first, without item id,
/// named by its last segment) with a visit, so the whole chain is
/// queryable.
pub open spec fn hit_writes_of(hits: Seq<HitInput>) -> Seq<WriteView> {
    hits_fold(hits).0
}

fn seen_contains(seen: &Vec<String>, p: &[char]) -> (r: bool)
    ensures
        r == seen@.map_values(|s: String| s@).contains(p@),
{
    let ghost sv = seen@.map_values(|s: String| s@);
    let mut i: usize = 0;
    while i < seen.len()
        invariant
            i <= seen@.len(),
            sv == seen@.map_values(|s: String| s@),
            forall|j: int| 0 <= j < i ==> sv[j] != p@,
        decreases seen.len() - i,
    {
        if crate::text::chars_eq_str(p, seen[i].as_str()) {
            proof {
                assert(sv[i as int] == p@);
            }
            return true;
        }
        i = i + 1;
    }
    false
}

fn add_ancestors(ws: &mut Vec<(CatalogNodeInput, i64)>, seen: &mut Vec<String>, path: &[char])
    ensures
        (writes_view(final(ws)@), final(seen)@.map_values(|s: String| s@).to_set()) == ancestor_writes(
            (writes_view(old(ws)@), old(seen)@.map_values(|s: String| s@).to_set()),
            path@,
        ),
    decreases path@.len(),
{
    match rfind_char(path, '/') {
        None => {},
        Some(i) => {
            let a = slice_chars(path, 0, i);
            proof {
                assert(a@ == path@.subrange(0, i as int));
            }
            let ghost ws0 = writes_view(ws@);
            let ghost s0 = seen@.map_values(|s: String| s@);
            if !seen_contains(seen, a.as_slice()) {
                let name_chars = match rfind_char(a.as_slice(), '/') {
                    Some(j) => slice_chars(a.as_slice(), j + 1, a.len()),
                    None => slice_chars(a.as_slice(), 0, a.len()),
                };
                proof {
                    assert(a@.subrange(0, a@.len() as int) =~= a@);
                    assert(name_chars@ == last_segment(a@));
                }
                let a_str = string_of(a.as_slice());
                ws.push(node(a_str.clone(), String::new(), string_of(name_chars.as_slice()), "folder".to_owned(), String::new(), 1));
                seen.push(a_str);
                proof {
                    assert(writes_view(ws@) =~= ws0.push(WriteView { path: a@, item_id: Seq::empty(), name: last_segment(a@), kind: "folder"@, desc: Seq::empty(), delta: 1 }));
                    assert(seen@.map_values(|s: String| s@) =~= s0.push(a@));
                    crate::text::lemma_push_to_set(s0, a@);
                }
            }
            add_ancestors(ws, seen, a.as_slice());
        },
    }
}

/// The writes a round of search hits makes (see `hit_writes_of`).
pub fn hit_writes(hits: &[HitInput]) -> (ws: Vec<(CatalogNodeInput, i64)>)
    ensures
        writes_view(ws@) == hit_writes_of(hits@),
{
    let mut ws: Vec<(CatalogNodeInput, i64)> = Vec::new();
    let mut seen: Vec<String> = Vec::new();
    proof {
        assert(writes_view(ws@) =~= Seq::<WriteView>::empty());
        assert(seen@.map_values(|s: String| s@).to_set() =~= Set::<Seq<char>>::empty());
    }
    let mut k: usize = 0;
    while k < hits.len()
        invariant
            k <= hits@.len(),
            (writes_view(ws@), seen@.map_values(|s: String| s@).to_set()) == hits_fold(hits@.take(k as int)),
        decreases hits.len() - k,
    {
        proof {
            assert(hits@.take(k + 1).drop_last() =~= hits@.take(k as int));
            assert(hits@.take(k + 1).last() == hits@[k as int]);
        }
        let h = &hits[k];
        let p = chars_of(h.path.as_str());
        let ghost ws0 = writes_view(ws@);
        let ghost s0 = seen@.map_values(|s: String| s@);
        if !seen_contains(&seen, p.as_slice()) {
            ws.push(node(h.path.clone(), h.item_id.clone(), h.name.clone(), h.kind.clone(), h.desc.clone(), 1));
            seen.push(h.path.clone());
            proof {
                assert(writes_view(ws@) =~= ws0.push(WriteView { path: h.path@, item_id: h.item_id@, name: h.name@, kind: h.kind@, desc: h.desc@, delta: 1 }));
                assert(seen@.map_values(|s: String| s@) =~= s0.push(h.path@));
                crate::text::lemma_push_to_set(s0, h.path@);
            }
        }
        add_ancestors(&mut ws, &mut seen, p.as_slice());
        k = k + 1;
    }
    proof {
        assert(hits@.take(hits@.len() as int) =~= hits@);
    }
    ws
}


// ── Queries ─────────────────────────────────────────────────────────────

pub open spec fn texts(v: Seq<String>) -> Seq<Seq<char>> {
    v.map_values(|s: String| s@)
}

/// The keywords of a query: trimmed, blanks dropped.
pub open spec fn query_terms(keywords: Seq<Seq<char>>) -> Seq<Seq<char>> {
    keywords.map_values(|k: Seq<char>| crate::text::trim(k)).filter(|k: Seq<char>| k.len() > 0)
}

/// The keywords the trigram index can serve: three characters or more.
pub open spec fn index_terms(terms: Seq<Seq<char>>) -> Seq<Seq<char>> {
    terms.filter(|k: Seq<char>| k.len() >= 3)
}

/// Splits a query's keywords into all terms and the indexable ones (see
/// `query_terms` and `index_terms`).
pub fn query_keywords(keywords: &[String]) -> (r: (Vec<String>, Vec<String>))
    ensures
        texts(r.0@) == query_terms(texts(keywords@)),
        texts(r.1@) == index_terms(query_terms(texts(keywords@))),
{
    let ghost f = |k: Seq<char>| k.len() > 0;
    let ghost g = |k: Seq<char>| k.len() >= 3;
    let ghost trimmed = texts(keywords@).map_values(|k: Seq<char>| crate::text::trim(k));
    let mut terms: Vec<String> = Vec::new();
    let mut i: usize = 0;
    while i < keywords.len()
        invariant
            i <= keywords@.len(),
            f == (|k: Seq<char>| k.len() > 0),
            trimmed == texts(keywords@).map_values(|k: Seq<char>| crate::text::trim(k)),
            texts(terms@) == trimmed.take(i as int).filter(f),
        decreases keywords.len() - i,
    {
        let t = crate::text::trim_chars(chars_of(keywords[i].as_str()).as_slice());
        let ghost before = texts(terms@);
        proof {
            reveal(Seq::filter);
            assert(trimmed.take(i + 1).drop_last() =~= trimmed.take(i as int));
            assert(trimmed.take(i + 1).last() == t@);
        }
        if t.len() > 0 {
            terms.push(string_of(t.as_slice()));
            proof {
                assert(texts(terms@) =~= before.push(t@));
            }
        }
        i = i + 1;
    }
    proof {
        assert(trimmed.take(trimmed.len() as int) =~= trimmed);
    }
    let ghost all = texts(terms@);
    let mut long: Vec<String> = Vec::new();
    let mut j: usize = 0;
    while j < terms.len()
        invariant
            j <= terms@.len(),
            g == (|k: Seq<char>| k.len() >= 3),
            all == texts(terms@),
            texts(long@) == all.take(j as int).filter(g),
        decreases terms.len() - j,
    {
        let c = chars_of(terms[j].as_str());
        let ghost before = texts(long@);
        proof {
            reveal(Seq::filter);
            assert(all.take(j + 1).drop_last() =~= all.take(j as int));
            assert(all.take(j + 1).last() == c@);
        }
        if c.len() >= 3 {
            long.push(terms[j].clone());
            proof {
                assert(texts(long@) =~= before.push(c@));
            }
        }
        j = j + 1;
    }
    proof {
        assert(all.take(all.len() as int) =~= all);
    }
    (terms, long)
}

/// A keyword as an FTS5 phrase: in double quotes, inner quotes doubled.
pub open spec fn fts_phrase(kw: Seq<char>) -> Seq<char> {
    seq!['"'] + quote_doubled(kw) + seq!['"']
}

/// `s` with every `"` doubled.
pub open spec fn quote_doubled(s: Seq<char>) -> Seq<char>
    decreases s.len(),
{
    if s.len() == 0 {
        s
    } else {
        quote_doubled(s.drop_last()) + if s.last() == '"' {
            seq!['"', '"']
        } else {
            seq![s.last()]
        }
    }
}

/// The FTS5 clause of one keyword: it must occur in the name, path or desc.
pub open spec fn fts_clause(kw: Seq<char>) -> Seq<char> {
    "(name:"@ + fts_phrase(kw) + " OR path:"@ + fts_phrase(kw) + " OR desc:"@ + fts_phrase(kw) + ")"@
}

/// The FTS5 MATCH expression: every keyword's clause, joined with AND.
pub open spec fn fts_match(kws: Seq<Seq<char>>) -> Seq<char> {
    crate::text::join(kws.map_values(|k: Seq<char>| fts_clause(k)), " AND "@)
}

fn phrase(kw: &str) -> (p: Vec<char>)
    ensures
        p@ == fts_phrase(kw@),
{
    let v = chars_of(kw);
    let mut out: Vec<char> = Vec::new();
    out.push('"');
    let mut i: usize = 0;
    while i < v.len()
        invariant
            i <= v@.len(),
            out@ == seq!['"'] + quote_doubled(v@.take(i as int)),
        decreases v.len() - i,
    {
        proof {
            assert(v@.take(i + 1).drop_last() =~= v@.take(i as int));
        }
        if v[i] == '"' {
            out.push('"');
            out.push('"');
        } else {
            out.push(v[i]);
        }
        proof {
            assert(out@ =~= seq!['"'] + quote_doubled(v@.take(i + 1)));
        }
        i = i + 1;
    }
    proof {
        assert(v@.take(v@.len() as int) =~= v@);
    }
    out.push('"');
    out
}

/// Builds the FTS5 MATCH expression of the keywords (see `fts_match`).
pub fn build_match(keywords: &[String]) -> (m: String)
    ensures
        m@ == fts_match(texts(keywords@)),
{
    let mut clauses: Vec<Vec<char>> = Vec::new();
    let mut i: usize = 0;
    while i < keywords.len()
        invariant
            i <= keywords@.len(),
            clauses.deep_view() == texts(keywords@).take(i as int).map_values(|k: Seq<char>| fts_clause(k)),
        decreases keywords.len() - i,
    {
        let p = phrase(keywords[i].as_str());
        let mut c: Vec<char> = Vec::new();
        extend_str(&mut c, "(name:");
        extend_chars(&mut c, p.as_slice());
        extend_str(&mut c, " OR path:");
        extend_chars(&mut c, p.as_slice());
        extend_str(&mut c, " OR desc:");
        extend_chars(&mut c, p.as_slice());
        extend_str(&mut c, ")");
        proof {
            assert(c.deep_view() =~= c@);
        }
        let ghost before = clauses.deep_view();
        clauses.push(c);
        proof {
            assert(clauses.deep_view() =~= before.push(c@));
            assert(texts(keywords@).take(i + 1) =~= texts(keywords@).take(i as int).push(keywords@[i as int]@));
            assert(clauses.deep_view() =~= texts(keywords@).take(i + 1).map_values(|k: Seq<char>| fts_clause(k)));
        }
        i = i + 1;
    }
    proof {
        assert(texts(keywords@).take(keywords@.len() as int) =~= texts(keywords@));
    }
    let sep = chars_of(" AND ");
    let joined = crate::text::join_chars(&clauses, sep.as_slice());
    string_of(joined.as_slice())
}

/// Whether a hit mentions every keyword in its name or path (compared
/// after Unicode lowercasing, name and path separated by a newline).
pub open spec fn hit_mentions_all(name: Seq<char>, path: Seq<char>, terms: Seq<Seq<char>>) -> bool {
    forall|i: int| 0 <= i < terms.len() ==> crate::text::contains_seq(
        crate::text::unicode_lowercase(name + seq!['\n'] + path),
        crate::text::unicode_lowercase(#[trigger] terms[i]),
    )
}

/// Whether a hit mentions every keyword (see `hit_mentions_all`).
pub fn hit_matches_keywords(hit: &CatalogHit, terms: &[String]) -> (b: bool)
    ensures
        b == hit_mentions_all(hit.name@, hit.path@, texts(terms@)),
{
    let mut hay: Vec<char> = Vec::new();
    extend_str(&mut hay, hit.name.as_str());
    hay.push('\n');
    extend_str(&mut hay, hit.path.as_str());
    let lower = crate::text::lowercase_chars(hay.as_slice());
    let mut i: usize = 0;
    while i < terms.len()
        invariant
            i <= terms@.len(),
            hay@ == hit.name@ + seq!['\n'] + hit.path@,
            lower@ == crate::text::unicode_lowercase(hay@),
            forall|j: int| 0 <= j < i ==> crate::text::contains_seq(lower@, crate::text::unicode_lowercase(#[trigger] texts(terms@)[j])),
        decreases terms.len() - i,
    {
        let kw = crate::text::lowercase_chars(chars_of(terms[i].as_str()).as_slice());
        proof {
            assert(texts(terms@)[i as int] == terms@[i as int]@);
        }
        if crate::text::find_chars(lower.as_slice(), kw.as_slice()).is_none() {
            return false;
        }
        i = i + 1;
    }
    true
}

// ── Deep indexing ───────────────────────────────────────────────────────

/// Depth limit of a deep index, clamped to `1..=MAX_ALLOWED_DEPTH`.
pub fn clamp_depth(max_depth: usize) -> (d: usize)
    ensures
        d == if max_depth < 1 { 1 } else if max_depth > 10 { 10 } else { max_depth },
{
    if max_depth < 1 {
        1
    } else if max_depth > MAX_ALLOWED_DEPTH {
        MAX_ALLOWED_DEPTH
    } else {
        max_depth
    }
}

/// A folder waiting to be listed: item id, path, depth.
#[derive(Debug, Clone)]
pub struct IndexTask {
    pub item_id: String,
    pub path: String,
    pub depth: usize,
}

/// What listing one folder at `path` and `depth` yields: a write (no
/// visit) for every child under its full path, and for every child folder
/// above the depth limit a task one level deeper.
pub fn index_folder(path: &str, depth: usize, max_depth: usize, entries: &[ChildEntry]) -> (r: (Vec<(CatalogNodeInput, i64)>, Vec<IndexTask>))
    requires
        depth < usize::MAX,
    ensures
        r.0@.len() == entries@.len(),
        forall|i: int| 0 <= i < entries@.len() ==> {
            &&& (#[trigger] writes_view(r.0@)[i]).path == joined(path@, entries@[i].name@)
            &&& writes_view(r.0@)[i].item_id == entries@[i].item_id@
            &&& writes_view(r.0@)[i].name == entries@[i].name@
            &&& writes_view(r.0@)[i].kind == entries@[i].kind@
            &&& writes_view(r.0@)[i].desc == Seq::<char>::empty()
            &&& writes_view(r.0@)[i].delta == 0
        },
        forall|t: int| 0 <= t < r.1@.len() ==> (#[trigger] r.1@[t]).depth == depth + 1,
        depth + 1 >= max_depth ==> r.1@.len() == 0,
{
    let base = chars_of(path);
    let mut writes: Vec<(CatalogNodeInput, i64)> = Vec::new();
    let mut tasks: Vec<IndexTask> = Vec::new();
    let mut i: usize = 0;
    while i < entries.len()
        invariant
            i <= entries@.len(),
            base@ == path@,
            depth < usize::MAX,
            writes@.len() == i,
            forall|q: int| 0 <= q < i ==> {
                &&& (#[trigger] writes_view(writes@)[q]).path == joined(path@, entries@[q].name@)
                &&& writes_view(writes@)[q].item_id == entries@[q].item_id@
                &&& writes_view(writes@)[q].name == entries@[q].name@
                &&& writes_view(writes@)[q].kind == entries@[q].kind@
                &&& writes_view(writes@)[q].desc == Seq::<char>::empty()
                &&& writes_view(writes@)[q].delta == 0
            },
            forall|t: int| 0 <= t < tasks@.len() ==> (#[trigger] tasks@[t]).depth == depth + 1,
            depth + 1 >= max_depth ==> tasks@.len() == 0,
        decreases entries.len() - i,
    {
        let e = &entries[i];
        let entry_path = join_path_text(base.as_slice(), e.name.as_str());
        if crate::text::chars_eq_str(chars_of(e.kind.as_str()).as_slice(), "folder") && depth + 1 < max_depth {
            tasks.push(IndexTask { item_id: e.item_id.clone(), path: entry_path.clone(), depth: depth + 1 });
        }
        let ghost before = writes@;
        let w = node(entry_path, e.item_id.clone(), e.name.clone(), e.kind.clone(), String::new(), 0);
        writes.push(w);
        proof {
            assert forall|q: int| 0 <= q < i + 1 implies {
                &&& (#[trigger] writes_view(writes@)[q]).path == joined(path@, entries@[q].name@)
                &&& writes_view(writes@)[q].item_id == entries@[q].item_id@
                &&& writes_view(writes@)[q].name == entries@[q].name@
                &&& writes_view(writes@)[q].kind == entries@[q].kind@
                &&& writes_view(writes@)[q].desc == Seq::<char>::empty()
                &&& writes_view(writes@)[q].delta == 0
            } by {
                if q < i {
                    assert(writes@[q] == before[q]);
                    assert(writes_view(before)[q] == write_view(before[q]));
                    assert(writes_view(before)[q].path == joined(path@, entries@[q].name@));
                } else {
                    assert(writes@[q] == w);
                }
            }
        }
        i = i + 1;
    }
    (writes, tasks)
}

// ── Query statements ─────────────────────────────────────────────────────

/// The columns a query reads, with the drive joined to each node.
pub const QUERY_SELECT: &'static str = "SELECT n.account_id, d.cloud_env, n.drive_id, d.name, d.site_name, n.path, n.item_id, n.name, n.kind, n.desc, n.visit_count FROM nodes n JOIN drives d ON d.account_id = n.account_id AND d.drive_id = n.drive_id";

/// The full-text table's join, used when a keyword can use the index.
pub const QUERY_FTS_JOIN: &'static str = " JOIN node_fts f ON f.rowid = n.rowid";

/// The condition that hands the indexable keywords to the full-text index.
pub const FTS_CONDITION: &'static str = "n.rowid IN (SELECT rowid FROM node_fts WHERE node_fts MATCH ?1)";

/// The condition a short keyword puts on a node's name or path.
pub const LIKE_CONDITION: &'static str = "(n.name LIKE ? OR n.path LIKE ?)";

/// The condition one account of the scope contributes.
pub const ACCOUNT_CONDITION: &'static str = "(n.account_id = ? AND d.cloud_env = ?)";

/// The condition of an empty scope: it lets nothing through.
pub const NOTHING_CONDITION: &'static str = "0 = 1";

/// The ordering: most visited first, then shorter paths.
pub const QUERY_ORDER: &'static str = " ORDER BY n.visit_count DESC, length(n.path) ASC LIMIT ";

/// `%kw%`: a `LIKE` pattern for a keyword anywhere.
pub open spec fn like_pattern(kw: Seq<char>) -> Seq<char> {
    seq!['%'] + kw + seq!['%']
}

/// The keyword conditions: the full-text one when some keyword is long
/// enough for the index, else one `LIKE` condition per keyword.
pub open spec fn keyword_conditions(terms: Seq<Seq<char>>, long: Seq<Seq<char>>) -> Seq<Seq<char>> {
    if long.len() > 0 {
        seq![FTS_CONDITION@]
    } else {
        Seq::new(terms.len(), |i: int| LIKE_CONDITION@)
    }
}

/// The values the keyword conditions bind: the MATCH expression of the long
/// keywords, else each keyword's pattern twice (name, then path).
pub open spec fn keyword_binds(terms: Seq<Seq<char>>, long: Seq<Seq<char>>) -> Seq<Seq<char>>
    decreases terms.len(),
{
    if long.len() > 0 {
        seq![fts_match(long)]
    } else if terms.len() == 0 {
        Seq::empty()
    } else {
        keyword_binds(terms.drop_last(), long) + seq![like_pattern(terms.last()), like_pattern(terms.last())]
    }
}

/// The view of an account scope: account ids with their clouds.
pub open spec fn scope_view(s: Seq<(String, CloudEnvironment)>) -> Seq<(Seq<char>, CloudEnvironment)> {
    s.map_values(|e: (String, CloudEnvironment)| (e.0@, e.1))
}

/// The scope's conditions: none without a scope, one that lets nothing
/// through for an empty scope, else one condition matching any of its
/// accounts in its cloud.
pub open spec fn scope_conditions(scope: Option<Seq<(Seq<char>, CloudEnvironment)>>) -> Seq<Seq<char>> {
    match scope {
        None => Seq::empty(),
        Some(s) => if s.len() == 0 {
            seq![NOTHING_CONDITION@]
        } else {
            seq![
                seq!['('] + crate::text::join(Seq::new(s.len(), |i: int| ACCOUNT_CONDITION@), " OR "@)
                    + seq![')'],
            ]
        },
    }
}

/// The values the scope binds: each account id and its cloud's name.
pub open spec fn scope_binds(s: Seq<(Seq<char>, CloudEnvironment)>) -> Seq<Seq<char>>
    decreases s.len(),
{
    if s.len() == 0 {
        Seq::empty()
    } else {
        scope_binds(s.drop_last()) + seq![s.last().0, crate::auth::env_name(s.last().1)]
    }
}

/// The statement of a query: the select, the full-text join where used,
/// the conditions joined with AND, the ordering and the limit.
pub open spec fn query_sql(
    terms: Seq<Seq<char>>,
    long: Seq<Seq<char>>,
    scope: Option<Seq<(Seq<char>, CloudEnvironment)>>,
    limit: nat,
) -> Seq<char> {
    let conds = keyword_conditions(terms, long) + scope_conditions(scope);
    QUERY_SELECT@ + (if long.len() > 0 {
        QUERY_FTS_JOIN@
    } else {
        Seq::empty()
    }) + (if conds.len() == 0 {
        Seq::empty()
    } else {
        " WHERE "@ + crate::text::join(conds, " AND "@)
    }) + QUERY_ORDER@ + crate::transcript::decimal(limit)
}

/// The values a query binds, in the order its placeholders appear.
pub open spec fn query_binds(
    terms: Seq<Seq<char>>,
    long: Seq<Seq<char>>,
    scope: Option<Seq<(Seq<char>, CloudEnvironment)>>,
) -> Seq<Seq<char>> {
    keyword_binds(terms, long) + match scope {
        Some(s) => scope_binds(s),
        None => Seq::empty(),
    }
}

fn chars_vec(s: &str) -> (v: Vec<char>)
    ensures
        v@ == s@,
        v.deep_view() == s@,
{
    let v = chars_of(s);
    proof {
        assert(v.deep_view() =~= v@);
    }
    v
}

fn repeated(s: &str, n: usize) -> (out: Vec<Vec<char>>)
    ensures
        out.deep_view() == Seq::new(n as nat, |i: int| s@),
{
    let mut out: Vec<Vec<char>> = Vec::new();
    let mut i: usize = 0;
    while i < n
        invariant
            i <= n,
            out.deep_view() == Seq::new(i as nat, |j: int| s@),
        decreases n - i,
    {
        let ghost before = out.deep_view();
        let t = chars_vec(s);
        push_text(&mut out, t);
        proof {
            assert(out.deep_view() == before.push(s@));
            assert(before.push(s@) =~= Seq::new((i + 1) as nat, |j: int| s@));
        }
        i = i + 1;
    }
    out
}

fn push_text(v: &mut Vec<Vec<char>>, t: Vec<char>)
    ensures
        final(v).deep_view() == old(v).deep_view().push(t@),
{
    let ghost before = v.deep_view();
    proof {
        assert(t.deep_view() =~= t@);
    }
    v.push(t);
    proof {
        assert(v.deep_view() =~= before.push(t@));
    }
}

/// The statement and bound values of a catalog query (see `query_sql` and
/// `query_binds`), for its trimmed keywords, the indexable ones among them,
/// an optional account scope and a row limit.
pub fn query_statement(
    terms: &Vec<String>,
    long: &Vec<String>,
    scope: Option<&Vec<(String, CloudEnvironment)>>,
    limit: usize,
) -> (r: (String, Vec<String>))
    ensures
        r.0@ == query_sql(
            texts(terms@),
            texts(long@),
            match scope {
                Some(s) => Some(scope_view(s@)),
                None => None,
            },
            limit as nat,
        ),
        texts(r.1@) == query_binds(
            texts(terms@),
            texts(long@),
            match scope {
                Some(s) => Some(scope_view(s@)),
                None => None,
            },
        ),
{
    let ghost tv = texts(terms@);
    let ghost lv = texts(long@);
    let ghost sv = match scope {
        Some(s) => Some(scope_view(s@)),
        None => None,
    };
    // Keyword conditions and binds.
    let mut conds: Vec<Vec<char>> = Vec::new();
    let mut binds: Vec<Vec<char>> = Vec::new();
    if long.len() > 0 {
        push_text(&mut conds, chars_vec(FTS_CONDITION));
        let m = build_match(long.as_slice());
        push_text(&mut binds, chars_of(m.as_str()));
        proof {
            assert(conds.deep_view() =~= keyword_conditions(tv, lv));
            assert(binds.deep_view() =~= keyword_binds(tv, lv));
        }
    } else {
        conds = repeated(LIKE_CONDITION, terms.len());
        let mut i: usize = 0;
        proof {
            assert(tv.take(0) =~= Seq::<Seq<char>>::empty());
            assert(binds.deep_view() =~= keyword_binds(tv.take(0), lv));
        }
        while i < terms.len()
            invariant
                i <= terms.len(),
                tv == texts(terms@),
                lv.len() == 0,
                binds.deep_view() == keyword_binds(tv.take(i as int), lv),
            decreases terms.len() - i,
        {
            let mut p: Vec<char> = Vec::new();
            p.push('%');
            extend_str(&mut p, terms[i].as_str());
            p.push('%');
            let q = p.clone();
            proof {
                assert(tv.take(i + 1).drop_last() =~= tv.take(i as int));
                assert(tv.take(i + 1).last() == terms@[i as int]@);
                assert(p@ =~= like_pattern(terms@[i as int]@));
            }
            let ghost before = binds.deep_view();
            push_text(&mut binds, p);
            push_text(&mut binds, q);
            proof {
                assert(binds.deep_view() =~= keyword_binds(tv.take(i + 1), lv));
            }
            i = i + 1;
        }
        proof {
            assert(tv.take(terms.len() as int) =~= tv);
            assert(conds.deep_view() =~= keyword_conditions(tv, lv));
        }
    }
    // Scope conditions and binds.
    let ghost kconds = conds.deep_view();
    let ghost kbinds = binds.deep_view();
    match scope {
        None => {
            proof {
                assert(conds.deep_view() =~= kconds + scope_conditions(sv));
                assert(binds.deep_view() =~= query_binds(tv, lv, sv));
            }
        },
        Some(s) => {
            if s.len() == 0 {
                push_text(&mut conds, chars_vec(NOTHING_CONDITION));
                proof {
                    assert(scope_view(s@) =~= Seq::<(Seq<char>, CloudEnvironment)>::empty());
                    assert(conds.deep_view() =~= kconds + scope_conditions(sv));
                    assert(binds.deep_view() =~= query_binds(tv, lv, sv));
                }
            } else {
                let each = repeated(ACCOUNT_CONDITION, s.len());
                let sep = chars_of(" OR ");
                let inner = crate::text::join_chars(&each, sep.as_slice());
                let mut c: Vec<char> = Vec::new();
                c.push('(');
                extend_chars(&mut c, inner.as_slice());
                c.push(')');
                proof {
                    assert(each.deep_view() =~= Seq::new(scope_view(s@).len(), |i: int| ACCOUNT_CONDITION@));
                    assert(c@ =~= seq!['('] + crate::text::join(
                        Seq::new(scope_view(s@).len(), |i: int| ACCOUNT_CONDITION@),
                        " OR "@,
                    ) + seq![')']);
                }
                push_text(&mut conds, c);
                proof {
                    assert(scope_view(s@).len() == s@.len());
                    assert(conds.deep_view() =~= kconds + scope_conditions(sv));
                }
                let mut j: usize = 0;
                let ghost scv = scope_view(s@);
                proof {
                    assert(scv.take(0) =~= Seq::<(Seq<char>, CloudEnvironment)>::empty());
                    assert(binds.deep_view() =~= kbinds + scope_binds(scv.take(0)));
                }
                while j < s.len()
                    invariant
                        j <= s.len(),
                        scv == scope_view(s@),
                        binds.deep_view() == kbinds + scope_binds(scv.take(j as int)),
                    decreases s.len() - j,
                {
                    let ghost before = binds.deep_view();
                    push_text(&mut binds, chars_of(s[j].0.as_str()));
                    push_text(&mut binds, chars_of(env_str(&s[j].1)));
                    proof {
                        assert(scv.take(j + 1).drop_last() =~= scv.take(j as int));
                        assert(scv.take(j + 1).last() == (s@[j as int].0@, s@[j as int].1));
                        assert(binds.deep_view() =~= kbinds + scope_binds(scv.take(j + 1)));
                    }
                    j = j + 1;
                }
                proof {
                    assert(scv.take(s.len() as int) =~= scv);
                    assert(binds.deep_view() =~= query_binds(tv, lv, sv));
                }
            }
        },
    }
    // The statement.
    let mut sql: Vec<char> = chars_of(QUERY_SELECT);
    if long.len() > 0 {
        extend_str(&mut sql, QUERY_FTS_JOIN);
    }
    if conds.len() > 0 {
        extend_str(&mut sql, " WHERE ");
        let sep = chars_of(" AND ");
        let w = crate::text::join_chars(&conds, sep.as_slice());
        extend_chars(&mut sql, w.as_slice());
    }
    extend_str(&mut sql, QUERY_ORDER);
    let d = crate::transcript::decimal_chars(limit as u64);
    extend_chars(&mut sql, d.as_slice());
    proof {
        assert(conds.deep_view().len() == conds@.len());
        assert(sql@ =~= query_sql(tv, lv, sv, limit as nat));
    }
    let mut out: Vec<String> = Vec::new();
    let mut k: usize = 0;
    let ghost bv = binds.deep_view();
    while k < binds.len()
        invariant
            k <= binds.len(),
            bv == binds.deep_view(),
            texts(out@) == bv.take(k as int),
        decreases binds.len() - k,
    {
        let t = string_of(binds[k].as_slice());
        proof {
            assert(bv[k as int] == binds@[k as int]@);
        }
        let ghost before = texts(out@);
        out.push(t);
        proof {
            assert(texts(out@) =~= before.push(t@));
            assert(bv.take(k + 1) =~= bv.take(k as int).push(bv[k as int]));
        }
        k = k + 1;
    }
    proof {
        assert(bv.take(binds.len() as int) =~= bv);
    }
    (string_of(sql.as_slice()), out)
}

/// An empty account scope lets no node through: its statement carries the
/// condition that is never true.
pub proof fn lemma_empty_scope_matches_nothing(terms: Seq<Seq<char>>, long: Seq<Seq<char>>, limit: nat)
    ensures
        scope_conditions(Some(Seq::<(Seq<char>, CloudEnvironment)>::empty())) == seq![NOTHING_CONDITION@],
        query_binds(terms, long, Some(Seq::<(Seq<char>, CloudEnvironment)>::empty())) == keyword_binds(terms, long),
{
    assert(query_binds(terms, long, Some(Seq::<(Seq<char>, CloudEnvironment)>::empty())) =~= keyword_binds(terms, long));
}

/// The hits a query keeps: where the index served only the long keywords
/// of a query that also has short ones, only hits that mention every
/// keyword (see `hit_mentions_all`); otherwise all of them.
pub fn retain_matching_hits(hits: Vec<CatalogHit>, terms: &Vec<String>, long: &Vec<String>) -> (out: Vec<CatalogHit>)
    ensures
        long.len() > 0 && terms.len() > long.len() ==> out@ == hits@.filter(
            |h: CatalogHit| hit_mentions_all(h.name@, h.path@, texts(terms@)),
        ),
        !(long.len() > 0 && terms.len() > long.len()) ==> out@ == hits@,
{
    if !(long.len() > 0 && terms.len() > long.len()) {
        return hits;
    }
    let ghost f = |h: CatalogHit| hit_mentions_all(h.name@, h.path@, texts(terms@));
    let ghost hv = hits@;
    let mut out: Vec<CatalogHit> = Vec::new();
    let mut src = hits;
    let ghost mut n: int = 0;
    proof {
        assert(hv.take(0).filter(f) =~= Seq::<CatalogHit>::empty()) by {
            reveal(Seq::filter);
        }
    }
    while src.len() > 0
        invariant
            0 <= n <= hv.len(),
            src@ == hv.skip(n),
            out@ == hv.take(n).filter(f),
            f == (|h: CatalogHit| hit_mentions_all(h.name@, h.path@, texts(terms@))),
        decreases src.len(),
    {
        let h = src.remove(0);
        proof {
            assert(h == hv[n]);
            assert(src@ =~= hv.skip(n + 1));
            assert(hv.take(n + 1).drop_last() =~= hv.take(n));
            reveal(Seq::filter);
        }
        let keep = hit_matches_keywords(&h, terms.as_slice());
        if keep {
            out.push(h);
        }
        proof {
            n = n + 1;
        }
    }
    proof {
        assert(hv.take(n) =~= hv);
    }
    out
}

// ── Seeding ─────────────────────────────────────────────────────────────

/// The fields a catalog listing asks for, with the page size.
pub const LISTING_QUERY: &'static str = "$top=200&$select=id,name,folder,file,parentReference";

/// The page of a catalog listing to fetch: the next link where there is
/// one, else the first page of the folder (the drive root without one).
pub open spec fn listing_page_url(base: Seq<char>, drive: Seq<char>, folder: Option<Seq<char>>, next: Option<Seq<char>>) -> Seq<char> {
    match next {
        Some(link) => link,
        None => match folder {
            Some(id) => base + "/drives/"@ + drive + "/items/"@ + id + "/children?"@ + LISTING_QUERY@,
            None => base + "/drives/"@ + drive + "/root/children?"@ + LISTING_QUERY@,
        },
    }
}

/// The page of a catalog listing to fetch (see `listing_page_url`).
pub fn listing_page(base: &str, drive: &str, folder: Option<&str>, next: Option<&str>) -> (u: String)
    ensures
        u@ == listing_page_url(
            base@,
            drive@,
            match folder {
                Some(f) => Some(f@),
                None => None,
            },
            match next {
                Some(n) => Some(n@),
                None => None,
            },
        ),
{
    match next {
        Some(link) => string_of(chars_of(link).as_slice()),
        None => {
            let mut v = chars_of(base);
            extend_str(&mut v, "/drives/");
            extend_str(&mut v, drive);
            match folder {
                Some(id) => {
                    extend_str(&mut v, "/items/");
                    extend_str(&mut v, id);
                    extend_str(&mut v, "/children?");
                },
                None => extend_str(&mut v, "/root/children?"),
            }
            extend_str(&mut v, LISTING_QUERY);
            string_of(v.as_slice())
        },
    }
}

/// The error of a listing answered with a status other than 2xx.
pub fn listing_failure(status: u16) -> (e: crate::errors::AppError)
    ensures
        e matches crate::errors::AppError::GraphApi { message, status_code } && status_code == status
            && message@ == "catalog listing failed: HTTP "@ + crate::transcript::decimal(status as nat),
{
    let mut v = chars_of("catalog listing failed: HTTP ");
    let d = crate::transcript::decimal_chars(status as u64);
    extend_chars(&mut v, d.as_slice());
    crate::errors::AppError::GraphApi { message: string_of(v.as_slice()), status_code: status }
}

/// What seeding writes: every root entry under its own path, with no
/// description and no visit.
pub fn seed_writes(entries: &[ChildEntry]) -> (w: Vec<(CatalogNodeInput, i64)>)
    ensures
        w@.len() == entries@.len(),
        forall|i: int| 0 <= i < entries@.len() ==> (#[trigger] writes_view(w@)[i]) == (WriteView {
            path: entries@[i].path@,
            item_id: entries@[i].item_id@,
            name: entries@[i].name@,
            kind: entries@[i].kind@,
            desc: Seq::empty(),
            delta: 0,
        }),
{
    let mut w: Vec<(CatalogNodeInput, i64)> = Vec::new();
    let mut i: usize = 0;
    while i < entries.len()
        invariant
            i <= entries@.len(),
            w@.len() == i,
            forall|q: int| 0 <= q < i ==> (#[trigger] writes_view(w@)[q]) == (WriteView {
                path: entries@[q].path@,
                item_id: entries@[q].item_id@,
                name: entries@[q].name@,
                kind: entries@[q].kind@,
                desc: Seq::empty(),
                delta: 0,
            }),
        decreases entries.len() - i,
    {
        let e = &entries[i];
        let empty = String::new();
        proof {
            assert(empty@ =~= Seq::<char>::empty());
        }
        let n = node(e.path.clone(), e.item_id.clone(), e.name.clone(), e.kind.clone(), empty, 0);
        let ghost before = w@;
        w.push(n);
        proof {
            assert forall|q: int| 0 <= q < i + 1 implies (#[trigger] writes_view(w@)[q]) == (WriteView {
                path: entries@[q].path@,
                item_id: entries@[q].item_id@,
                name: entries@[q].name@,
                kind: entries@[q].kind@,
                desc: Seq::empty(),
                delta: 0,
            }) by {
                if q < i {
                    assert(w@[q] == before[q]);
                    assert(writes_view(before)[q] == write_view(before[q]));
                } else {
                    assert(w@[q] == n);
                }
            }
        }
        i = i + 1;
    }
    w
}

/// The status a deep index ends in: `cancelled` when it was stopped, else
/// `ready`.
pub fn deep_index_status(cancelled: bool) -> (s: &'static str)
    ensures
        s@ == (if cancelled {
            "cancelled"@
        } else {
            "ready"@
        }),
{
    if cancelled {
        "cancelled"
    } else {
        "ready"
    }
}

// ── Commands ────────────────────────────────────────────────────────────

/// The cloud a catalog command names: exactly `global` or `china`.
pub open spec fn catalog_env(s: Seq<char>) -> Option<CloudEnvironment> {
    if s == "global"@ {
        Some(CloudEnvironment::Global)
    } else if s == "china"@ {
        Some(CloudEnvironment::China)
    } else {
        None
    }
}

/// Parses the cloud a catalog command names (see `catalog_env`).
pub fn parse_catalog_env(cloud_env: &str) -> (r: Result<CloudEnvironment, crate::errors::AppError>)
    ensures
        match catalog_env(cloud_env@) {
            Some(env) => r == Ok::<CloudEnvironment, crate::errors::AppError>(env),
            None => r matches Err(crate::errors::AppError::Validation { message, field })
                && message@ == "unknown cloud env: "@ + cloud_env@ && field@ == "cloudEnv"@,
        },
{
    let c = chars_of(cloud_env);
    if crate::text::chars_eq_str(c.as_slice(), "global") {
        Ok(CloudEnvironment::Global)
    } else if crate::text::chars_eq_str(c.as_slice(), "china") {
        Ok(CloudEnvironment::China)
    } else {
        let mut m = chars_of("unknown cloud env: ");
        extend_str(&mut m, cloud_env);
        Err(crate::errors::AppError::Validation { message: string_of(m.as_slice()), field: string_of(chars_of("cloudEnv").as_slice()) })
    }
}

/// Whether registering a drive starts its root seed: a new drive, or one
/// whose indexing failed or never ran.
pub fn needs_seed(is_new: bool, status: &str) -> (b: bool)
    ensures
        b == (is_new || status@ == "failed"@ || status@ == "queued"@),
{
    let c = chars_of(status);
    is_new || crate::text::chars_eq_str(c.as_slice(), "failed") || crate::text::chars_eq_str(c.as_slice(), "queued")
}

/// The key a running deep index is cancelled by: `{account}|{drive}`.
pub fn index_key(account_id: &str, drive_id: &str) -> (k: String)
    ensures
        k@ == account_id@ + seq!['|'] + drive_id@,
{
    let mut v = chars_of(account_id);
    v.push('|');
    extend_str(&mut v, drive_id);
    string_of(v.as_slice())
}

/// The rows a query returns unless told otherwise.
pub const DEFAULT_QUERY_LIMIT: usize = 20;

/// The row limit of a query: the given one, else 20.
pub fn query_limit(limit: Option<usize>) -> (n: usize)
    ensures
        n == match limit {
            Some(l) => l,
            None => DEFAULT_QUERY_LIMIT,
        },
{
    match limit {
        Some(l) => l,
        None => DEFAULT_QUERY_LIMIT,
    }
}

/// The account scope of a query: each account with its parsed cloud; the
/// first account naming an unknown cloud fails the query.
pub fn query_scope(keys: Option<Vec<(String, String)>>) -> (r: Result<Option<Vec<(String, CloudEnvironment)>>, crate::errors::AppError>)
    ensures
        keys is None ==> r == Ok::<Option<Vec<(String, CloudEnvironment)>>, crate::errors::AppError>(None),
        keys matches Some(ks) ==> match r {
            Ok(Some(scope)) => scope@.len() == ks@.len() && forall|i: int| 0 <= i < ks@.len() ==> (#[trigger] scope@[i]).0@
                == ks@[i].0@ && catalog_env(ks@[i].1@) == Some(scope@[i].1),
            Ok(None) => false,
            Err(e) => exists|i: int| 0 <= i < ks@.len() && catalog_env(#[trigger] ks@[i].1@) is None,
        },
{
    match keys {
        None => Ok(None),
        Some(ks) => {
            let ghost kv = ks@;
            let mut out: Vec<(String, CloudEnvironment)> = Vec::new();
            let mut i: usize = 0;
            while i < ks.len()
                invariant
                    i <= ks.len(),
                    kv == ks@,
                    keys == Some(ks),
                    out@.len() == i,
                    forall|j: int| 0 <= j < i ==> (#[trigger] out@[j]).0@ == kv[j].0@ && catalog_env(kv[j].1@) == Some(out@[j].1),
                decreases ks.len() - i,
            {
                match parse_catalog_env(ks[i].1.as_str()) {
                    Err(e) => {
                        proof {
                            assert(catalog_env(kv[i as int].1@) is None);
                        }
                        return Err(e);
                    },
                    Ok(env) => {
                        let id = string_of(chars_of(ks[i].0.as_str()).as_slice());
                        out.push((id, env));
                    },
                }
                i = i + 1;
            }
            Ok(Some(out))
        },
    }
}

/// A catalog query ready to run: the statement, its bound values, and
/// the terms of three or more characters the hits are filtered by.
#[derive(Debug)]
pub struct QueryPlan {
    pub terms: Vec<String>,
    pub long_terms: Vec<String>,
    pub sql: String,
    pub binds: Vec<String>,
}

/// Plans a catalog query: nothing to run (`None`) when no keyword has text
/// once trimmed, so that such a query finds nothing; else the statement of
/// `query_statement` over the query's terms.
pub fn plan_query(
    keywords: &[String],
    scope: Option<&Vec<(String, CloudEnvironment)>>,
    limit: usize,
) -> (r: Option<QueryPlan>)
    ensures
        r is None <==> query_terms(texts(keywords@)).len() == 0,
        r matches Some(p) ==> {
            let terms = query_terms(texts(keywords@));
            let sv = match scope {
                Some(s) => Some(scope_view(s@)),
                None => None,
            };
            &&& texts(p.terms@) == terms
            &&& texts(p.long_terms@) == index_terms(terms)
            &&& p.sql@ == query_sql(terms, index_terms(terms), sv, limit as nat)
            &&& texts(p.binds@) == query_binds(terms, index_terms(terms), sv)
        },
{
    let (terms, long) = query_keywords(keywords);
    if terms.len() == 0 {
        return None;
    }
    let (sql, binds) = query_statement(&terms, &long, scope, limit);
    Some(QueryPlan { terms, long_terms: long, sql, binds })
}

/// A node as the catalog holds it.
#[derive(Debug, Clone)]
pub struct StoredNode {
    pub item_id: String,
    pub path: String,
    pub name: String,
    pub kind: String,
    pub desc: String,
    pub parent_path: String,
    pub last_visited: i64,
    pub visit_count: i64,
}

/// Writing `node` with `delta` visits at time `now` over what the catalog
/// held at its path: a new node starts with `delta` visits; an existing
/// one takes the new name, kind and parent, keeps its item id when the new
/// one is empty and its description unless it had none, adds `delta` to
/// its visits, and counts as visited now only when `delta > 0`. `parent` is
/// the parent path of the node's path.
pub open spec fn merged_node(
    existing: Option<StoredNode>,
    node: CatalogNodeInput,
    parent: String,
    delta: i64,
    now: i64,
) -> StoredNode {
    match existing {
        None => StoredNode {
            item_id: node.item_id,
            path: node.path,
            name: node.name,
            kind: node.kind,
            desc: node.desc,
            parent_path: parent,
            last_visited: now,
            visit_count: delta,
        },
        Some(e) => StoredNode {
            item_id: if node.item_id@.len() == 0 { e.item_id } else { node.item_id },
            path: e.path,
            name: node.name,
            kind: node.kind,
            desc: if e.desc@.len() == 0 && node.desc@.len() > 0 { node.desc } else { e.desc },
            parent_path: parent,
            last_visited: if delta > 0 { now } else { e.last_visited },
            visit_count: (e.visit_count + delta) as i64,
        },
    }
}

/// The node the catalog holds after writing `node` (see `merged_node`; the
/// parent path is that of the node's path).
pub fn merge_node(existing: Option<StoredNode>, node: &CatalogNodeInput, delta: i64, now: i64) -> (r: StoredNode)
    requires
        existing matches Some(e) ==> i64::MIN <= e.visit_count + delta <= i64::MAX,
    ensures
        r == merged_node(existing, *node, r.parent_path, delta, now),
        r.parent_path@ == parent_of(node.path@),
{
    let parent = parent_path(node.path.as_str());
    match existing {
        None => StoredNode {
            item_id: node.item_id.clone(),
            path: node.path.clone(),
            name: node.name.clone(),
            kind: node.kind.clone(),
            desc: node.desc.clone(),
            parent_path: parent,
            last_visited: now,
            visit_count: delta,
        },
        Some(e) => {
            let item_id = if chars_of(node.item_id.as_str()).len() == 0 {
                e.item_id
            } else {
                node.item_id.clone()
            };
            let desc = if chars_of(e.desc.as_str()).len() == 0 && chars_of(node.desc.as_str()).len() > 0 {
                node.desc.clone()
            } else {
                e.desc
            };
            StoredNode {
                item_id,
                path: e.path,
                name: node.name.clone(),
                kind: node.kind.clone(),
                desc,
                parent_path: parent,
                last_visited: if delta > 0 { now } else { e.last_visited },
                visit_count: e.visit_count + delta,
            }
        },
    }
}

/// Registering a drive over what the catalog held: a new drive is taken as
/// given; an existing one takes the new name, kind and use time, and keeps
/// its site name when the new one is empty (its status and node count are
/// the catalog's).
pub open spec fn merged_drive(existing: Option<CatalogDrive>, drive: CatalogDrive) -> CatalogDrive {
    match existing {
        None => drive,
        Some(e) => CatalogDrive {
            name: drive.name,
            kind: drive.kind,
            last_used_at: drive.last_used_at,
            site_name: if drive.site_name@.len() > 0 { drive.site_name } else { e.site_name },
            ..e
        },
    }
}

/// The drive the catalog holds after registering `drive` (see
/// `merged_drive`).
pub fn merge_drive(existing: Option<CatalogDrive>, drive: CatalogDrive) -> (r: CatalogDrive)
    ensures
        r == merged_drive(existing, drive),
{
    match existing {
        None => drive,
        Some(e) => {
            let site_name = if chars_of(drive.site_name.as_str()).len() > 0 {
                drive.site_name
            } else {
                e.site_name
            };
            CatalogDrive { name: drive.name, kind: drive.kind, last_used_at: drive.last_used_at, site_name, ..e }
        },
    }
}

} // verus!
