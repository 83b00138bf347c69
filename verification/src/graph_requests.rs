//! The Graph requests behind the drive commands (listing, search, item
//! properties, previews, thumbnails, share links, conversion, recordings)
//! and what each answer gives. Sending them is the caller's.

use vstd::prelude::*;
use crate::errors::AppError;
use crate::graph_items::RawQuota;
use crate::models::DriveQuota;
use crate::text::{chars_eq_str, chars_of, extend_str, string_of};

verus! {

/// The item fields a listing asks for.
pub const DRIVE_ITEM_SELECT: &'static str = "id,name,size,lastModifiedDateTime,folder,file,remoteItem,package,webUrl,parentReference,@microsoft.graph.downloadUrl,createdDateTime";

/// The item fields a folder-size walk asks for.
pub const SIZE_CHILD_SELECT: &'static str = "id,name,size,folder,remoteItem,package";

/// Largest file, in bytes, shown as a text preview.
pub const TEXT_PREVIEW_LIMIT: usize = 2097152;

/// Largest file, in bytes, whose text is extracted for the assistant.
pub const TEXT_EXTRACTION_LIMIT: usize = 10485760;

/// `{base}/drives/{drive}/items/{item}`.
pub open spec fn item_address(base: Seq<char>, drive: Seq<char>, item: Seq<char>) -> Seq<char> {
    base + "/drives/"@ + drive + "/items/"@ + item
}

fn text3(a: &str, b: &str, c: &str) -> (out: Vec<char>)
    ensures
        out@ == a@ + b@ + c@,
{
    let mut v = chars_of(a);
    extend_str(&mut v, b);
    extend_str(&mut v, c);
    v
}

fn item_address_chars(base: &str, drive: &str, item: &str) -> (out: Vec<char>)
    ensures
        out@ == item_address(base@, drive@, item@),
{
    let mut v = text3(base, "/drives/", drive);
    extend_str(&mut v, "/items/");
    extend_str(&mut v, item);
    v
}

/// The address of an item, for reading its properties, renaming or
/// deleting it.
pub fn item_url(base: &str, drive: &str, item: &str) -> (u: String)
    ensures
        u@ == item_address(base@, drive@, item@),
{
    string_of(item_address_chars(base, drive, item).as_slice())
}

/// The first page of a folder's children with the listing fields.
pub fn children_url(base: &str, drive: &str, item: &str) -> (u: String)
    ensures
        u@ == item_address(base@, drive@, item@) + "/children?$top=200&$select="@ + DRIVE_ITEM_SELECT@,
{
    let mut v = item_address_chars(base, drive, item);
    extend_str(&mut v, "/children?$top=200&$select=");
    extend_str(&mut v, DRIVE_ITEM_SELECT);
    string_of(v.as_slice())
}

/// The first page of a folder's children with the fields a size walk needs.
pub fn size_children_url(base: &str, drive: &str, item: &str) -> (u: String)
    ensures
        u@ == item_address(base@, drive@, item@) + "/children?$top=200&$select="@ + SIZE_CHILD_SELECT@,
{
    let mut v = item_address_chars(base, drive, item);
    extend_str(&mut v, "/children?$top=200&$select=");
    extend_str(&mut v, SIZE_CHILD_SELECT);
    string_of(v.as_slice())
}

/// An item with just the fields that tell a folder from a file and its size.
pub fn item_size_url(base: &str, drive: &str, item: &str) -> (u: String)
    ensures
        u@ == item_address(base@, drive@, item@) + "?$select=id,size,folder,remoteItem,package"@,
{
    let mut v = item_address_chars(base, drive, item);
    extend_str(&mut v, "?$select=id,size,folder,remoteItem,package");
    string_of(v.as_slice())
}

/// An item's content.
pub fn content_url(base: &str, drive: &str, item: &str) -> (u: String)
    ensures
        u@ == item_address(base@, drive@, item@) + "/content"@,
{
    let mut v = item_address_chars(base, drive, item);
    extend_str(&mut v, "/content");
    string_of(v.as_slice())
}

/// An item's content converted to another format (`pdf`, `html`, ...).
pub fn converted_content_url(base: &str, drive: &str, item: &str, format: &str) -> (u: String)
    ensures
        u@ == item_address(base@, drive@, item@) + "/content?format="@ + format@,
{
    let mut v = item_address_chars(base, drive, item);
    extend_str(&mut v, "/content?format=");
    extend_str(&mut v, format);
    string_of(v.as_slice())
}

/// Where an embeddable preview of an item is asked for.
pub fn preview_url(base: &str, drive: &str, item: &str) -> (u: String)
    ensures
        u@ == item_address(base@, drive@, item@) + "/preview"@,
{
    let mut v = item_address_chars(base, drive, item);
    extend_str(&mut v, "/preview");
    string_of(v.as_slice())
}

/// An item's thumbnail sets.
pub fn thumbnails_url(base: &str, drive: &str, item: &str) -> (u: String)
    ensures
        u@ == item_address(base@, drive@, item@) + "/thumbnails"@,
{
    let mut v = item_address_chars(base, drive, item);
    extend_str(&mut v, "/thumbnails");
    string_of(v.as_slice())
}

/// Where a sharing link for an item is created.
pub fn create_link_url(base: &str, drive: &str, item: &str) -> (u: String)
    ensures
        u@ == item_address(base@, drive@, item@) + "/createLink"@,
{
    let mut v = item_address_chars(base, drive, item);
    extend_str(&mut v, "/createLink");
    string_of(v.as_slice())
}

/// A drive's metadata, quota included.
pub fn drive_url(base: &str, drive: &str) -> (u: String)
    ensures
        u@ == base@ + "/drives/"@ + drive@,
{
    string_of(text3(base, "/drives/", drive).as_slice())
}

/// The document libraries of a SharePoint site.
pub fn site_drives_url(base: &str, site: &str) -> (u: String)
    ensures
        u@ == base@ + "/sites/"@ + site@ + "/drives"@,
{
    let mut v = text3(base, "/sites/", site);
    extend_str(&mut v, "/drives");
    string_of(v.as_slice())
}

/// The search of a drive: from `item` where the scope is `local` and an
/// item is given, else from the drive's root. The query stands as given.
pub open spec fn search_address(
    base: Seq<char>,
    drive: Seq<char>,
    query: Seq<char>,
    scope: Seq<char>,
    item: Option<Seq<char>>,
) -> Seq<char> {
    let from = if scope == "local"@ && item is Some {
        "/items/"@ + item->Some_0
    } else {
        "/root"@
    };
    base + "/drives/"@ + drive + from + "/search(q='"@ + query + "')?$select="@ + DRIVE_ITEM_SELECT@
}

/// The search of a drive (see `search_address`).
pub fn search_url(base: &str, drive: &str, query: &str, scope: &str, item: Option<&str>) -> (u: String)
    ensures
        u@ == search_address(
            base@,
            drive@,
            query@,
            scope@,
            match item {
                Some(i) => Some(i@),
                None => None,
            },
        ),
{
    let mut v = text3(base, "/drives/", drive);
    let local = chars_eq_str(chars_of(scope).as_slice(), "local");
    match item {
        Some(i) => if local {
            extend_str(&mut v, "/items/");
            extend_str(&mut v, i);
        } else {
            extend_str(&mut v, "/root");
        },
        None => extend_str(&mut v, "/root"),
    }
    extend_str(&mut v, "/search(q='");
    extend_str(&mut v, query);
    extend_str(&mut v, "')?$select=");
    extend_str(&mut v, DRIVE_ITEM_SELECT);
    string_of(v.as_slice())
}

/// The signed-in user's own drive id.
pub fn own_drive_url(base: &str) -> (u: String)
    ensures
        u@ == base@ + "/me/drive?$select=id"@,
{
    let mut v = chars_of(base);
    extend_str(&mut v, "/me/drive?$select=id");
    string_of(v.as_slice())
}

/// The children of the user's `Recordings` folder, by its English path.
pub fn recordings_children_url(base: &str) -> (u: String)
    ensures
        u@ == base@ + "/me/drive/root:/Recordings/children?$top=200&$select="@ + DRIVE_ITEM_SELECT@,
{
    let mut v = chars_of(base);
    extend_str(&mut v, "/me/drive/root:/Recordings/children?$top=200&$select=");
    extend_str(&mut v, DRIVE_ITEM_SELECT);
    string_of(v.as_slice())
}

/// The entries of the user's drive root.
pub fn own_root_children_url(base: &str) -> (u: String)
    ensures
        u@ == base@ + "/me/drive/root/children?$top=200&$select="@ + DRIVE_ITEM_SELECT@,
{
    let mut v = chars_of(base);
    extend_str(&mut v, "/me/drive/root/children?$top=200&$select=");
    extend_str(&mut v, DRIVE_ITEM_SELECT);
    string_of(v.as_slice())
}

/// The children of a folder of the user's drive.
pub fn own_item_children_url(base: &str, item: &str) -> (u: String)
    ensures
        u@ == base@ + "/me/drive/items/"@ + item@ + "/children?$top=200&$select="@ + DRIVE_ITEM_SELECT@,
{
    let mut v = text3(base, "/me/drive/items/", item);
    extend_str(&mut v, "/children?$top=200&$select=");
    extend_str(&mut v, DRIVE_ITEM_SELECT);
    string_of(v.as_slice())
}

/// Where Microsoft Search queries are posted.
pub fn search_query_url(base: &str) -> (u: String)
    ensures
        u@ == base@ + "/search/query"@,
{
    let mut v = chars_of(base);
    extend_str(&mut v, "/search/query");
    string_of(v.as_slice())
}

/// Whether `e` is a Graph error with this message and status 0.
pub open spec fn is_graph_error(e: AppError, message: Seq<char>) -> bool {
    e matches AppError::GraphApi { message: m, status_code } && m@ == message && status_code == 0
}

fn graph_error(message: &str) -> (e: AppError)
    ensures
        is_graph_error(e, message@),
{
    AppError::GraphApi { message: string_of(chars_of(message).as_slice()), status_code: 0 }
}

/// A drive's quota, missing fields read as zero; a drive without quota
/// information is an error.
pub fn quota_of(quota: Option<RawQuota>) -> (r: Result<DriveQuota, AppError>)
    ensures
        match quota {
            Some(q) => r == Ok::<DriveQuota, AppError>(
                DriveQuota {
                    total: crate::graph_items::or_zero(q.total),
                    used: crate::graph_items::or_zero(q.used),
                    remaining: crate::graph_items::or_zero(q.remaining),
                },
            ),
            None => r is Err && is_graph_error(r->Err_0, "Drive has no quota information"@),
        },
{
    match quota {
        Some(q) => Ok(
            DriveQuota {
                total: match q.total {
                    Some(t) => t,
                    None => 0,
                },
                used: match q.used {
                    Some(u) => u,
                    None => 0,
                },
                remaining: match q.remaining {
                    Some(m) => m,
                    None => 0,
                },
            },
        ),
        None => Err(graph_error("Drive has no quota information")),
    }
}

/// The web address of a created sharing link; an answer without one is an
/// error.
pub fn share_link_of(link_web_url: Option<String>) -> (r: Result<String, AppError>)
    ensures
        match link_web_url {
            Some(u) => r == Ok::<String, AppError>(u),
            None => r is Err && is_graph_error(r->Err_0, "Share link response did not contain a URL"@),
        },
{
    match link_web_url {
        Some(u) => Ok(u),
        None => Err(graph_error("Share link response did not contain a URL")),
    }
}

/// The address of an embeddable preview; an answer without one is an error.
pub fn preview_of(get_url: Option<String>) -> (r: Result<String, AppError>)
    ensures
        match get_url {
            Some(u) => r == Ok::<String, AppError>(u),
            None => r is Err && is_graph_error(r->Err_0, "Preview response did not contain a URL"@),
        },
{
    match get_url {
        Some(u) => Ok(u),
        None => Err(graph_error("Preview response did not contain a URL")),
    }
}

/// One thumbnail of a set.
#[derive(Debug, Clone)]
pub struct Thumbnail {
    pub url: Option<String>,
}

/// The sizes Graph offers of one thumbnail.
#[derive(Debug, Clone)]
pub struct ThumbnailSet {
    pub small: Option<Thumbnail>,
    pub medium: Option<Thumbnail>,
    pub large: Option<Thumbnail>,
}

/// The thumbnail chosen from a set: the large one where there is one, else
/// the medium, else the small.
pub open spec fn chosen_thumbnail(set: ThumbnailSet) -> Option<Thumbnail> {
    if set.large is Some {
        set.large
    } else if set.medium is Some {
        set.medium
    } else {
        set.small
    }
}

/// The thumbnail address of an item: from its first set, the chosen
/// thumbnail's address (see `chosen_thumbnail`); no set, or a chosen
/// thumbnail without an address, is an error.
pub fn thumbnail_url_of(sets: Vec<ThumbnailSet>) -> (r: Result<String, AppError>)
    ensures
        sets@.len() == 0 ==> r is Err && is_graph_error(r->Err_0, "Item does not have a thumbnail set"@),
        sets@.len() > 0 ==> match chosen_thumbnail(sets@[0]) {
            Some(t) => match t.url {
                Some(u) => r == Ok::<String, AppError>(u),
                None => r is Err && is_graph_error(r->Err_0, "Thumbnail response did not contain a URL"@),
            },
            None => r is Err && is_graph_error(r->Err_0, "Thumbnail response did not contain a URL"@),
        },
{
    let mut sets = sets;
    if sets.len() == 0 {
        return Err(graph_error("Item does not have a thumbnail set"));
    }
    let set = sets.remove(0);
    let chosen = match set.large {
        Some(t) => Some(t),
        None => match set.medium {
            Some(t) => Some(t),
            None => set.small,
        },
    };
    match chosen {
        Some(t) => match t.url {
            Some(u) => Ok(u),
            None => Err(graph_error("Thumbnail response did not contain a URL")),
        },
        None => Err(graph_error("Thumbnail response did not contain a URL")),
    }
}

/// A file's bytes may be shown as a text preview only up to 2 MiB.
pub fn check_text_preview_size(len: usize) -> (r: Result<(), AppError>)
    ensures
        len <= TEXT_PREVIEW_LIMIT ==> r is Ok,
        len > TEXT_PREVIEW_LIMIT ==> (r matches Err(AppError::Validation { message, field })
            && message@ == "File is too large for text preview"@ && field@ == "item_id"@),
{
    if len > TEXT_PREVIEW_LIMIT {
        Err(
            AppError::Validation {
                message: string_of(chars_of("File is too large for text preview").as_slice()),
                field: string_of(chars_of("item_id").as_slice()),
            },
        )
    } else {
        Ok(())
    }
}

/// A file's text may be extracted for the assistant only up to 10 MiB.
pub fn check_text_extraction_size(len: usize) -> (r: Result<(), AppError>)
    ensures
        len <= TEXT_EXTRACTION_LIMIT ==> r is Ok,
        len > TEXT_EXTRACTION_LIMIT ==> (r matches Err(AppError::Validation { message, field })
            && message@ == "File is too large for text extraction"@ && field@ == "item_id"@),
{
    if len > TEXT_EXTRACTION_LIMIT {
        Err(
            AppError::Validation {
                message: string_of(chars_of("File is too large for text extraction").as_slice()),
                field: string_of(chars_of("item_id").as_slice()),
            },
        )
    } else {
        Ok(())
    }
}

/// Whether a one-byte read of an item's content says it may be downloaded:
/// an answer with a 2xx status says yes, a refusal with 401 or 403 says
/// no, any other failure is passed on.
pub fn download_probe_outcome(answer: Result<u16, AppError>) -> (r: Result<bool, AppError>)
    ensures
        match answer {
            Ok(status) => r == Ok::<bool, AppError>(200 <= status <= 299),
            Err(e) => if (e matches AppError::GraphApi { status_code, .. } && (status_code == 401
                || status_code == 403)) {
                r == Ok::<bool, AppError>(false)
            } else {
                r == Err::<bool, AppError>(e)
            },
        },
{
    match answer {
        Ok(status) => Ok(200 <= status && status <= 299),
        Err(e) => {
            let refused = match &e {
                AppError::GraphApi { status_code, .. } => *status_code == 401 || *status_code
                    == 403,
                _ => false,
            };
            if refused {
                Ok(false)
            } else {
                Err(e)
            }
        },
    }
}

} // verus!
