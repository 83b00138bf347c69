//! What Graph listings are turned into: drive items (shared items resolved
//! through their remote payload), drives, sites, recordings found by
//! search, and the decisions of the listing walks (which children count,
//! what a folder's size adds up from, which sites and recordings are kept).

use vstd::prelude::*;
use crate::models::{
    CloudEnvironment, Drive, DriveItem, DriveQuota, MeetingRecording, ParentReference,
    RecordingSource, Site,
};
use crate::recordings::{is_recording_video, is_recording_video_name, is_recordings_segment};
use crate::text::{chars_eq_str, chars_of, extend_str, string_of};

verus! {

// ── Raw listing entries ─────────────────────────────────────────────────

/// `parentReference` as Graph gives it.
#[derive(Debug, Clone)]
pub struct RawParentReference {
    pub drive_id: Option<String>,
    pub id: Option<String>,
    pub path: Option<String>,
    pub name: Option<String>,
}

/// The `file` facet as Graph gives it.
#[derive(Debug, Clone)]
pub struct RawFile {
    pub mime_type: Option<String>,
}

/// `remoteItem`: the real identity of an item shared from another drive;
/// `has_folder` and `has_package` say whether those facets are present.
#[derive(Debug, Clone)]
pub struct RawRemoteItem {
    pub id: Option<String>,
    pub name: Option<String>,
    pub has_folder: bool,
    pub has_package: bool,
    pub parent_reference: Option<RawParentReference>,
}

/// A drive item as Graph lists it; `has_folder` and `has_package` say
/// whether those facets are present.
#[derive(Debug, Clone)]
pub struct RawDriveItem {
    pub id: Option<String>,
    pub name: Option<String>,
    pub size: Option<u64>,
    pub last_modified_date_time: Option<String>,
    pub has_folder: bool,
    pub file: Option<RawFile>,
    pub web_url: Option<String>,
    pub parent_reference: Option<RawParentReference>,
    pub download_url: Option<String>,
    pub created_date_time: Option<String>,
    pub remote_item: Option<RawRemoteItem>,
    pub has_package: bool,
}

/// The text of an optional string, empty when absent.
pub open spec fn or_empty(o: Option<String>) -> Seq<char> {
    match o {
        Some(s) => s@,
        None => Seq::empty(),
    }
}

/// The string of an optional string, empty when absent.
fn unwrap_text(o: Option<String>) -> (s: String)
    ensures
        s@ == or_empty(o),
{
    match o {
        Some(t) => t,
        None => {
            let e = String::new();
            proof {
                assert(e@ =~= Seq::<char>::empty());
            }
            e
        },
    }
}

/// `p` is the parent reference Graph's `r` describes: missing ids become
/// empty.
pub open spec fn is_parent_of_raw(p: ParentReference, r: RawParentReference) -> bool {
    &&& p.drive_id@ == or_empty(r.drive_id)
    &&& p.id@ == or_empty(r.id)
    &&& p.path == r.path
    &&& p.name == r.name
}

/// The parent reference of a raw one (see `is_parent_of_raw`).
fn parent_from_raw(r: RawParentReference) -> (p: ParentReference)
    ensures
        is_parent_of_raw(p, r),
{
    ParentReference {
        drive_id: unwrap_text(r.drive_id),
        id: unwrap_text(r.id),
        path: r.path,
        name: r.name,
    }
}

/// Whether a raw item is a shim for an item shared from another drive: it
/// has no parent reference but a remote payload.
pub open spec fn is_remote_shim(raw: RawDriveItem) -> bool {
    raw.parent_reference is None && raw.remote_item is Some
}

/// `item` is the drive item Graph's `raw` describes. For a shared shim the
/// identity and location come from the remote payload, and it is a folder
/// when the shim or the remote payload has a folder facet or the remote
/// payload is a package; otherwise everything comes from the item itself,
/// a folder or package being a folder. Missing ids, names and dates become
/// empty.
pub open spec fn is_item_of_raw(item: DriveItem, raw: RawDriveItem) -> bool {
    &&& item.size == raw.size
    &&& item.last_modified@ == or_empty(raw.last_modified_date_time)
    &&& item.mime_type == match raw.file {
        Some(f) => f.mime_type,
        None => None,
    }
    &&& item.web_url == raw.web_url
    &&& item.download_url == raw.download_url
    &&& item.created_date_time == raw.created_date_time
    &&& if is_remote_shim(raw) {
        let ri = raw.remote_item.unwrap();
        &&& item.id@ == or_empty(ri.id)
        &&& item.name@ == or_empty(ri.name)
        &&& item.is_folder == (raw.has_folder || ri.has_folder || ri.has_package)
        &&& match ri.parent_reference {
            Some(r) => item.parent_reference matches Some(p) && is_parent_of_raw(p, r),
            None => item.parent_reference is None,
        }
    } else {
        &&& item.id@ == or_empty(raw.id)
        &&& item.name@ == or_empty(raw.name)
        &&& item.is_folder == (raw.has_folder || raw.has_package)
        &&& match raw.parent_reference {
            Some(r) => item.parent_reference matches Some(p) && is_parent_of_raw(p, r),
            None => item.parent_reference is None,
        }
    }
}

/// The drive item a raw listing entry describes (see `is_item_of_raw`).
pub fn drive_item_from_raw(raw: RawDriveItem) -> (item: DriveItem)
    ensures
        is_item_of_raw(item, raw),
{
    let ghost rv = raw;
    let remote = raw.parent_reference.is_none() && raw.remote_item.is_some();
    let mime_type = match raw.file {
        Some(f) => f.mime_type,
        None => None,
    };
    let last_modified = unwrap_text(raw.last_modified_date_time);
    if remote {
        let ri = match raw.remote_item {
            Some(ri) => ri,
            None => {
                proof {
                    assert(false);
                }
                RawRemoteItem { id: None, name: None, has_folder: false, has_package: false, parent_reference: None }
            },
        };
        let is_folder = raw.has_folder || ri.has_folder || ri.has_package;
        let parent_reference = match ri.parent_reference {
            Some(r) => Some(parent_from_raw(r)),
            None => None,
        };
        DriveItem {
            id: unwrap_text(ri.id),
            name: unwrap_text(ri.name),
            size: raw.size,
            last_modified,
            is_folder,
            mime_type,
            web_url: raw.web_url,
            parent_reference,
            download_url: raw.download_url,
            created_date_time: raw.created_date_time,
        }
    } else {
        let parent_reference = match raw.parent_reference {
            Some(r) => Some(parent_from_raw(r)),
            None => None,
        };
        DriveItem {
            id: unwrap_text(raw.id),
            name: unwrap_text(raw.name),
            size: raw.size,
            last_modified,
            is_folder: raw.has_folder || raw.has_package,
            mime_type,
            web_url: raw.web_url,
            parent_reference,
            download_url: raw.download_url,
            created_date_time: raw.created_date_time,
        }
    }
}

/// A drive's quota as Graph gives it.
#[derive(Debug, Clone, Copy)]
pub struct RawQuota {
    pub total: Option<u64>,
    pub used: Option<u64>,
    pub remaining: Option<u64>,
}

/// A drive as Graph gives it.
#[derive(Debug, Clone)]
pub struct RawDrive {
    pub id: Option<String>,
    pub name: Option<String>,
    pub drive_type: Option<String>,
    pub quota: Option<RawQuota>,
}

/// A count, zero when absent.
pub open spec fn or_zero(o: Option<u64>) -> u64 {
    match o {
        Some(n) => n,
        None => 0,
    }
}

/// The drive Graph's `raw` describes: missing texts empty, missing quota
/// figures zero.
pub fn drive_from_raw(raw: RawDrive) -> (d: Drive)
    ensures
        d.id@ == or_empty(raw.id),
        d.name@ == or_empty(raw.name),
        d.drive_type@ == or_empty(raw.drive_type),
        d.quota == match raw.quota {
            Some(q) => Some(DriveQuota { total: or_zero(q.total), used: or_zero(q.used), remaining: or_zero(q.remaining) }),
            None => None,
        },
{
    let quota = match raw.quota {
        Some(q) => Some(DriveQuota {
            total: match q.total {
                Some(n) => n,
                None => 0,
            },
            used: match q.used {
                Some(n) => n,
                None => 0,
            },
            remaining: match q.remaining {
                Some(n) => n,
                None => 0,
            },
        }),
        None => None,
    };
    Drive { id: unwrap_text(raw.id), name: unwrap_text(raw.name), drive_type: unwrap_text(raw.drive_type), quota }
}

/// A site as Graph gives it.
#[derive(Debug, Clone)]
pub struct RawSite {
    pub id: Option<String>,
    pub display_name: Option<String>,
    pub name: Option<String>,
    pub web_url: Option<String>,
}

/// The site Graph's `raw` describes: named by its display name, else its
/// name; missing texts empty.
pub fn site_from_raw(raw: RawSite) -> (s: Site)
    ensures
        s.id@ == or_empty(raw.id),
        s.display_name@ == match raw.display_name {
            Some(d) => d@,
            None => or_empty(raw.name),
        },
        s.web_url@ == or_empty(raw.web_url),
{
    let display_name = match raw.display_name {
        Some(d) => d,
        None => unwrap_text(raw.name),
    };
    Site { id: unwrap_text(raw.id), display_name, web_url: unwrap_text(raw.web_url) }
}

// ── Listing walks ───────────────────────────────────────────────────────

/// Whether a listing walk keeps a child: it has an id, and is a file unless
/// folders are wanted too.
pub open spec fn keeps_child(item: DriveItem, include_folders: bool) -> bool {
    item.id@.len() > 0 && (include_folders || !item.is_folder)
}

/// Adds the kept children of one page to `items`, stopping once `max`
/// items are collected; `true` when the cap was reached (the walk then
/// stops without further pages).
pub fn collect_children_page(items: &mut Vec<DriveItem>, page: Vec<DriveItem>, max: usize, include_folders: bool) -> (full: bool)
    requires
        old(items)@.len() < max,
    ensures
        final(items)@.len() <= max,
        full == (final(items)@.len() == max),
        exists|k: int|
            0 <= k <= page@.len() && final(items)@ == old(items)@ + kept_children(page@.take(k), include_folders)
                && (k < page@.len() ==> final(items)@.len() == max),
{
    let ghost pv = page@;
    let mut src = page;
    let ghost mut n: int = 0;
    proof {
        assert(pv.take(0) =~= Seq::<DriveItem>::empty());
        assert(items@ =~= old(items)@ + kept_children(pv.take(0), include_folders));
    }
    while src.len() > 0
        invariant
            0 <= n <= pv.len(),
            src@ == pv.skip(n),
            pv == page@,
            items@ == old(items)@ + kept_children(pv.take(n), include_folders),
            items@.len() < max,
        decreases src.len(),
    {
        let item = src.remove(0);
        proof {
            assert(item == pv[n]);
            assert(src@ =~= pv.skip(n + 1));
            assert(pv.take(n + 1).drop_last() =~= pv.take(n));
        }
        let keep = chars_of(item.id.as_str()).len() > 0 && (include_folders || !item.is_folder);
        if keep {
            items.push(item);
            proof {
                assert(items@ =~= old(items)@ + kept_children(pv.take(n + 1), include_folders));
                n = n + 1;
            }
            if items.len() >= max {
                proof {
                    assert(items@.len() == max);
                    assert(pv == page@);
                    assert(0 <= n <= page@.len() && items@ == old(items)@ + kept_children(page@.take(n), include_folders));
                }
                return true;
            }
        } else {
            proof {
                n = n + 1;
            }
        }
    }
    proof {
        assert(pv.take(n) =~= pv);
        assert(items@ == old(items)@ + kept_children(pv.take(pv.len() as int), include_folders));
    }
    false
}

/// The children a walk keeps, in listing order (see `keeps_child`).
pub open spec fn kept_children(page: Seq<DriveItem>, include_folders: bool) -> Seq<DriveItem>
    decreases page.len(),
{
    if page.len() == 0 {
        Seq::empty()
    } else {
        let r = kept_children(page.drop_last(), include_folders);
        if keeps_child(page.last(), include_folders) {
            r.push(page.last())
        } else {
            r
        }
    }
}

/// Folders are not summed below this depth.
pub const MAX_SIZE_DEPTH: u32 = 32;

/// What a child adds to its folder's size.
#[derive(Debug, Clone)]
pub enum SizeStep {
    /// The size of this subfolder, summed in turn one level deeper.
    Descend(String),
    /// This many bytes.
    Add(u64),
}

/// What a child adds to its folder's size: a folder with an id is summed
/// in turn; anything else adds its size (nothing when unknown).
pub fn size_step(item: &DriveItem) -> (s: SizeStep)
    ensures
        item.is_folder && item.id@.len() > 0 ==> (s matches SizeStep::Descend(id) && id@ == item.id@),
        !(item.is_folder && item.id@.len() > 0) ==> (s matches SizeStep::Add(n) && n == or_zero(item.size)),
{
    if item.is_folder && chars_of(item.id.as_str()).len() > 0 {
        SizeStep::Descend(item.id.clone())
    } else {
        SizeStep::Add(match item.size {
            Some(n) => n,
            None => 0,
        })
    }
}

// ── Sites ───────────────────────────────────────────────────────────────

/// A directory object of `/me/memberOf`.
#[derive(Debug, Clone)]
pub struct DirectoryObject {
    pub odata_type: Option<String>,
    pub id: Option<String>,
}

/// The ids of the Microsoft 365 groups among directory objects, in order.
pub open spec fn group_ids_of(objs: Seq<DirectoryObject>) -> Seq<Seq<char>>
    decreases objs.len(),
{
    if objs.len() == 0 {
        Seq::empty()
    } else {
        let r = group_ids_of(objs.drop_last());
        let o = objs.last();
        if o.odata_type matches Some(t) && t@ == "#microsoft.graph.group"@ && o.id is Some {
            r.push(o.id.unwrap()@)
        } else {
            r
        }
    }
}

/// The ids of the groups the user belongs to (see `group_ids_of`).
pub fn group_ids(objs: Vec<DirectoryObject>) -> (ids: Vec<String>)
    ensures
        ids@.map_values(|s: String| s@) == group_ids_of(objs@),
{
    let ghost ov = objs@;
    let mut src = objs;
    let mut ids: Vec<String> = Vec::new();
    let ghost mut n: int = 0;
    proof {
        assert(ov.take(0) =~= Seq::<DirectoryObject>::empty());
        assert(ids@.map_values(|s: String| s@) =~= Seq::<Seq<char>>::empty());
    }
    while src.len() > 0
        invariant
            0 <= n <= ov.len(),
            src@ == ov.skip(n),
            ids@.map_values(|s: String| s@) == group_ids_of(ov.take(n)),
        decreases src.len(),
    {
        let o = src.remove(0);
        proof {
            assert(o == ov[n]);
            assert(src@ =~= ov.skip(n + 1));
            assert(ov.take(n + 1).drop_last() =~= ov.take(n));
        }
        let is_group = match &o.odata_type {
            Some(t) => chars_eq_str(chars_of(t.as_str()).as_slice(), "#microsoft.graph.group"),
            None => false,
        };
        if is_group {
            match o.id {
                Some(id) => {
                    let ghost before = ids@.map_values(|s: String| s@);
                    let ghost iv = id@;
                    ids.push(id);
                    proof {
                        assert(ids@.map_values(|s: String| s@) =~= before.push(iv));
                    }
                },
                None => {},
            }
        }
        proof {
            n = n + 1;
        }
    }
    proof {
        assert(ov.take(n) =~= ov);
    }
    ids
}

/// `{base}` followed by `path`.
fn joined_url(base: &str, path: &str) -> (u: String)
    ensures
        u@ == base@ + path@,
{
    let mut out: Vec<char> = Vec::new();
    extend_str(&mut out, base);
    extend_str(&mut out, path);
    string_of(out.as_slice())
}

/// The sources of site discovery, in the order they are asked: the
/// followed sites, then a search for every site.
pub fn site_discovery_urls(base: &str) -> (urls: Vec<String>)
    ensures
        urls@.len() == 2,
        urls@[0]@ == base@ + "/me/followedSites?$select=id,displayName,webUrl"@,
        urls@[1]@ == base@ + "/sites?search=*&$select=id,displayName,webUrl"@,
{
    let mut urls: Vec<String> = Vec::new();
    urls.push(joined_url(base, "/me/followedSites?$select=id,displayName,webUrl"));
    urls.push(joined_url(base, "/sites?search=*&$select=id,displayName,webUrl"));
    urls
}

/// Whether groups are searched for sites too: only in the China cloud.
pub fn discovers_group_sites(env: CloudEnvironment) -> (b: bool)
    ensures
        b == (env == CloudEnvironment::China),
{
    match env {
        CloudEnvironment::China => true,
        CloudEnvironment::Global => false,
    }
}

/// The root site of a group: `{base}/groups/{id}/sites/root`.
pub fn group_root_site_url(base: &str, group_id: &str) -> (u: String)
    ensures
        u@ == base@ + "/groups/"@ + group_id@ + "/sites/root"@,
{
    let mut out: Vec<char> = Vec::new();
    extend_str(&mut out, base);
    extend_str(&mut out, "/groups/");
    extend_str(&mut out, group_id);
    extend_str(&mut out, "/sites/root");
    string_of(out.as_slice())
}

/// The tenant's root site, asked for only when no other source found any.
pub fn tenant_root_site_url(base: &str) -> (u: String)
    ensures
        u@ == base@ + "/sites/root?$select=id,displayName,webUrl"@,
{
    joined_url(base, "/sites/root?$select=id,displayName,webUrl")
}

// ── Recordings ──────────────────────────────────────────────────────────

/// The search that finds recordings shared with the user.
pub const RECORDING_SEARCH_QUERY: &'static str = "filetype:mp4";

/// Hits asked for per search page.
pub const SEARCH_PAGE_SIZE: usize = 50;

/// Search pages asked for at most.
pub const SEARCH_MAX_PAGES: usize = 4;

/// A search hit's resource, as far as the search reads it.
#[derive(Debug, Clone)]
pub struct SearchHit {
    pub name: Option<String>,
    pub id: Option<String>,
    pub drive_id: Option<String>,
    pub size: Option<u64>,
    pub last_modified: Option<String>,
    pub mime_type: Option<String>,
    pub web_url: Option<String>,
    pub created: Option<String>,
}

/// Whether a hit counts as a recording shared with the user: a video file
/// with an id, on a drive that is named and is not the user's own.
pub open spec fn is_shared_recording_hit(hit: SearchHit, own_drive_id: Seq<char>) -> bool {
    &&& hit.name matches Some(n) && is_recording_video(n@)
    &&& or_empty(hit.id).len() > 0
    &&& or_empty(hit.drive_id).len() > 0
    &&& or_empty(hit.drive_id) != own_drive_id
}

/// `r` is the recording a hit stands for: on the hit's drive, a file found
/// by search, with the hit's name, id, size, dates, type and link.
pub open spec fn is_recording_of_hit(r: MeetingRecording, hit: SearchHit) -> bool {
    &&& r.drive_id@ == or_empty(hit.drive_id)
    &&& r.item.id@ == or_empty(hit.id)
    &&& hit.name matches Some(n) && r.item.name == n
    &&& r.item.size == hit.size
    &&& r.item.last_modified@ == or_empty(hit.last_modified)
    &&& !r.item.is_folder
    &&& r.item.mime_type == hit.mime_type
    &&& r.item.web_url == hit.web_url
    &&& r.item.parent_reference is None
    &&& r.item.download_url is None
    &&& r.item.created_date_time == hit.created
    &&& r.source_type == RecordingSource::Search
    &&& r.source_name@ == Seq::<char>::empty()
}

/// The recording a search hit stands for, if it counts (see
/// `is_shared_recording_hit`).
pub fn recording_from_hit(hit: SearchHit, own_drive_id: &str) -> (r: Option<MeetingRecording>)
    ensures
        match r {
            Some(rec) => is_shared_recording_hit(hit, own_drive_id@) && is_recording_of_hit(rec, hit),
            None => !is_shared_recording_hit(hit, own_drive_id@),
        },
{
    let ghost hv = hit;
    let name = match hit.name {
        Some(n) => n,
        None => {
            return None;
        },
    };
    if !is_recording_video_name(name.as_str()) {
        return None;
    }
    let id = unwrap_text(hit.id);
    let drive_id = unwrap_text(hit.drive_id);
    if chars_of(id.as_str()).len() == 0 || chars_of(drive_id.as_str()).len() == 0 {
        return None;
    }
    if chars_eq_str(chars_of(drive_id.as_str()).as_slice(), own_drive_id) {
        return None;
    }
    let source_name = String::new();
    proof {
        assert(source_name@ =~= Seq::<char>::empty());
    }
    Some(MeetingRecording {
        drive_id,
        item: DriveItem {
            id,
            name,
            size: hit.size,
            last_modified: unwrap_text(hit.last_modified),
            is_folder: false,
            mime_type: hit.mime_type,
            web_url: hit.web_url,
            parent_reference: None,
            download_url: None,
            created_date_time: hit.created,
        },
        source_type: RecordingSource::Search,
        source_name,
    })
}

/// Whether the search asks for another page after page `page` (from 0)
/// returned `hit_count` hits: only after a full page, and at most
/// `SEARCH_MAX_PAGES` pages in all.
pub fn search_continues(page: usize, hit_count: usize) -> (b: bool)
    ensures
        b == (hit_count >= 50 && page + 1 < 4),
{
    hit_count >= SEARCH_PAGE_SIZE && page < SEARCH_MAX_PAGES - 1
}

/// Whether a listing entry is the recordings folder: a folder named by one
/// of the recordings aliases, ignoring ASCII case.
pub open spec fn is_recordings_folder(item: DriveItem) -> bool {
    item.is_folder && is_recordings_segment(item.name@)
}

/// The first entry of the drive root that is the recordings folder.
pub fn find_recordings_folder(entries: &Vec<DriveItem>) -> (r: Option<usize>)
    ensures
        match r {
            Some(i) => i < entries@.len() && is_recordings_folder(entries@[i as int])
                && forall|j: int| 0 <= j < i ==> !is_recordings_folder(#[trigger] entries@[j]),
            None => forall|j: int| 0 <= j < entries@.len() ==> !is_recordings_folder(#[trigger] entries@[j]),
        },
{
    let mut i: usize = 0;
    while i < entries.len()
        invariant
            i <= entries@.len(),
            forall|j: int| 0 <= j < i ==> !is_recordings_folder(#[trigger] entries@[j]),
        decreases entries.len() - i,
    {
        if entries[i].is_folder && crate::recordings::is_recordings_name(entries[i].name.as_str()) {
            return Some(i);
        }
        i = i + 1;
    }
    None
}

/// Whether two recordings are the same file: the same drive and item.
pub open spec fn same_recording(a: MeetingRecording, b: MeetingRecording) -> bool {
    a.drive_id@ == b.drive_id@ && a.item.id@ == b.item.id@
}

/// The recordings without repeats, the first of each kept, in order.
pub open spec fn deduped(rs: Seq<MeetingRecording>) -> Seq<MeetingRecording>
    decreases rs.len(),
{
    if rs.len() == 0 {
        Seq::empty()
    } else {
        let r = deduped(rs.drop_last());
        if exists|i: int| 0 <= i < rs.len() - 1 && same_recording(#[trigger] rs[i], rs.last()) {
            r
        } else {
            r.push(rs.last())
        }
    }
}

/// Keeps the first of each recording found by more than one source (see
/// `deduped`).
pub fn dedupe_recordings(recordings: Vec<MeetingRecording>) -> (out: Vec<MeetingRecording>)
    ensures
        out@ == deduped(recordings@),
{
    let ghost rv = recordings@;
    let mut src = recordings;
    let mut out: Vec<MeetingRecording> = Vec::new();
    let mut seen: Vec<(String, String)> = Vec::new();
    let ghost mut n: int = 0;
    proof {
        assert(rv.take(0) =~= Seq::<MeetingRecording>::empty());
    }
    while src.len() > 0
        invariant
            0 <= n <= rv.len(),
            src@ == rv.skip(n),
            out@ == deduped(rv.take(n)),
            seen@.len() == n,
            forall|i: int| 0 <= i < n ==> (#[trigger] seen@[i]).0@ == rv[i].drive_id@ && seen@[i].1@ == rv[i].item.id@,
        decreases src.len(),
    {
        let r = src.remove(0);
        proof {
            assert(r == rv[n]);
            assert(src@ =~= rv.skip(n + 1));
            assert(rv.take(n + 1).drop_last() =~= rv.take(n));
            assert(rv.take(n + 1).last() == r);
        }
        let mut dup = false;
        let mut k: usize = 0;
        while k < seen.len()
            invariant
                k <= seen@.len(),
                seen@.len() == n,
                forall|i: int| 0 <= i < n ==> (#[trigger] seen@[i]).0@ == rv[i].drive_id@ && seen@[i].1@ == rv[i].item.id@,
                dup == exists|i: int| 0 <= i < k && same_recording(#[trigger] rv[i], r),
            decreases seen.len() - k,
        {
            let a = chars_of(seen[k].0.as_str());
            let b = chars_of(seen[k].1.as_str());
            if chars_eq_str(a.as_slice(), r.drive_id.as_str()) && chars_eq_str(b.as_slice(), r.item.id.as_str()) {
                proof {
                    assert(same_recording(rv[k as int], r));
                }
                dup = true;
            }
            k = k + 1;
        }
        proof {
            assert forall|i: int| 0 <= i < rv.take(n + 1).len() - 1 implies rv.take(n + 1)[i] == rv[i] by {}
            if dup {
                let i = choose|i: int| 0 <= i < n && same_recording(#[trigger] rv[i], r);
                assert(same_recording(rv.take(n + 1)[i], rv.take(n + 1).last()));
            } else {
                assert forall|i: int| 0 <= i < rv.take(n + 1).len() - 1 implies !same_recording(#[trigger] rv.take(n + 1)[i], rv.take(n + 1).last()) by {
                    assert(rv.take(n + 1)[i] == rv[i]);
                }
            }
        }
        seen.push((r.drive_id.clone(), r.item.id.clone()));
        if !dup {
            out.push(r);
        }
        proof {
            n = n + 1;
        }
    }
    proof {
        assert(rv.take(n) =~= rv);
    }
    out
}

/// Whether recordings are gathered at all: not in the China cloud, where
/// the services they rely on are missing.
pub fn gathers_recordings(env: CloudEnvironment) -> (b: bool)
    ensures
        b == (env == CloudEnvironment::Global),
{
    match env {
        CloudEnvironment::Global => true,
        CloudEnvironment::China => false,
    }
}

} // verus!
