use base64::Engine;
use share_one_list::errors::AppError;
use share_one_list::gateway::{
    authorized, decision_response, gateway_decision, host_allowed, mount_in_path, port_range,
    unauthorized, unknown_mount, GatewayDecision,
};
use share_one_list::graph_items::RawQuota;
use share_one_list::graph_requests::{
    check_text_extraction_size, check_text_preview_size, children_url, content_url,
    converted_content_url, create_link_url, download_probe_outcome, drive_url, item_size_url,
    item_url, own_drive_url, own_item_children_url, own_root_children_url, preview_of,
    preview_url, quota_of, recordings_children_url, search_query_url, search_url, share_link_of,
    site_drives_url, size_children_url, thumbnail_url_of, thumbnails_url, Thumbnail,
    ThumbnailSet, DRIVE_ITEM_SELECT,
};
use share_one_list::models::DriveItem;
use share_one_list::recordings::{
    check_transcript_size, lookup_miss, parent_drive_of, pick_transcript, recording_item_url,
    transcript_file, transcript_twin_url,
};

const B: &str = "https://graph.microsoft.com/v1.0";

fn graph_message<T: std::fmt::Debug>(r: Result<T, AppError>) -> String {
    match r {
        Err(AppError::GraphApi { message, status_code }) => {
            assert_eq!(status_code, 0);
            message
        }
        other => panic!("unexpected {:?}", other),
    }
}

#[test]
fn item_addresses() {
    assert_eq!(item_url(B, "d1", "i1"), format!("{}/drives/d1/items/i1", B));
    assert_eq!(
        children_url(B, "d1", "i1"),
        format!("{}/drives/d1/items/i1/children?$top=200&$select={}", B, DRIVE_ITEM_SELECT)
    );
    assert_eq!(
        size_children_url(B, "d1", "i1"),
        format!("{}/drives/d1/items/i1/children?$top=200&$select=id,name,size,folder,remoteItem,package", B)
    );
    assert_eq!(
        item_size_url(B, "d1", "i1"),
        format!("{}/drives/d1/items/i1?$select=id,size,folder,remoteItem,package", B)
    );
    assert_eq!(content_url(B, "d", "i"), format!("{}/drives/d/items/i/content", B));
    assert_eq!(converted_content_url(B, "d", "i", "pdf"), format!("{}/drives/d/items/i/content?format=pdf", B));
    assert_eq!(preview_url(B, "d", "i"), format!("{}/drives/d/items/i/preview", B));
    assert_eq!(thumbnails_url(B, "d", "i"), format!("{}/drives/d/items/i/thumbnails", B));
    assert_eq!(create_link_url(B, "d", "i"), format!("{}/drives/d/items/i/createLink", B));
    assert_eq!(drive_url(B, "d"), format!("{}/drives/d", B));
    assert_eq!(site_drives_url(B, "s1"), format!("{}/sites/s1/drives", B));
    assert_eq!(own_drive_url(B), format!("{}/me/drive?$select=id", B));
    assert_eq!(
        recordings_children_url(B),
        format!("{}/me/drive/root:/Recordings/children?$top=200&$select={}", B, DRIVE_ITEM_SELECT)
    );
    assert_eq!(
        own_root_children_url(B),
        format!("{}/me/drive/root/children?$top=200&$select={}", B, DRIVE_ITEM_SELECT)
    );
    assert_eq!(
        own_item_children_url(B, "f1"),
        format!("{}/me/drive/items/f1/children?$top=200&$select={}", B, DRIVE_ITEM_SELECT)
    );
    assert_eq!(search_query_url(B), format!("{}/search/query", B));
}

#[test]
fn search_is_local_only_with_an_item() {
    assert_eq!(
        search_url(B, "d", "q1", "local", Some("f")),
        format!("{}/drives/d/items/f/search(q='q1')?$select={}", B, DRIVE_ITEM_SELECT)
    );
    assert_eq!(
        search_url(B, "d", "q1", "local", None),
        format!("{}/drives/d/root/search(q='q1')?$select={}", B, DRIVE_ITEM_SELECT)
    );
    assert_eq!(
        search_url(B, "d", "q1", "global", Some("f")),
        format!("{}/drives/d/root/search(q='q1')?$select={}", B, DRIVE_ITEM_SELECT)
    );
}

#[test]
fn answers_without_the_expected_value_are_errors() {
    let q = quota_of(Some(RawQuota { total: Some(10), used: None, remaining: Some(4) })).unwrap();
    assert_eq!((q.total, q.used, q.remaining), (10, 0, 4));
    assert_eq!(graph_message(quota_of(None)), "Drive has no quota information");
    assert_eq!(share_link_of(Some("https://s/l".into())).unwrap(), "https://s/l");
    assert_eq!(graph_message(share_link_of(None)), "Share link response did not contain a URL");
    assert_eq!(preview_of(Some("https://p".into())).unwrap(), "https://p");
    assert_eq!(graph_message(preview_of(None)), "Preview response did not contain a URL");
}

fn thumb(url: Option<&str>) -> Option<Thumbnail> {
    Some(Thumbnail { url: url.map(|u| u.to_string()) })
}

#[test]
fn thumbnail_prefers_large_then_medium_then_small() {
    let set = ThumbnailSet { small: thumb(Some("s")), medium: thumb(Some("m")), large: thumb(Some("l")) };
    assert_eq!(thumbnail_url_of(vec![set]).unwrap(), "l");
    let set = ThumbnailSet { small: thumb(Some("s")), medium: thumb(Some("m")), large: None };
    assert_eq!(thumbnail_url_of(vec![set]).unwrap(), "m");
    let set = ThumbnailSet { small: thumb(Some("s")), medium: None, large: None };
    assert_eq!(thumbnail_url_of(vec![set]).unwrap(), "s");
    let set = ThumbnailSet { small: thumb(Some("s")), medium: None, large: thumb(None) };
    assert_eq!(graph_message(thumbnail_url_of(vec![set])), "Thumbnail response did not contain a URL");
    assert_eq!(graph_message(thumbnail_url_of(vec![])), "Item does not have a thumbnail set");
}

#[test]
fn size_limits_and_download_probe() {
    assert!(check_text_preview_size(2 * 1024 * 1024).is_ok());
    match check_text_preview_size(2 * 1024 * 1024 + 1) {
        Err(AppError::Validation { message, field }) => {
            assert_eq!(message, "File is too large for text preview");
            assert_eq!(field, "item_id");
        }
        other => panic!("unexpected {:?}", other),
    }
    assert!(check_text_extraction_size(10 * 1024 * 1024).is_ok());
    assert!(check_text_extraction_size(10 * 1024 * 1024 + 1).is_err());
    assert_eq!(download_probe_outcome(Ok(206)).unwrap(), true);
    assert_eq!(download_probe_outcome(Ok(302)).unwrap(), false);
    let forbidden = AppError::GraphApi { message: "denied".into(), status_code: 403 };
    assert_eq!(download_probe_outcome(Err(forbidden)).unwrap(), false);
    let unauth = AppError::GraphApi { message: "x".into(), status_code: 401 };
    assert_eq!(download_probe_outcome(Err(unauth)).unwrap(), false);
    let other = AppError::GraphApi { message: "boom".into(), status_code: 500 };
    assert!(download_probe_outcome(Err(other)).is_err());
}

fn child(name: &str) -> DriveItem {
    DriveItem {
        id: name.to_string(),
        name: name.to_string(),
        size: Some(1),
        last_modified: String::new(),
        is_folder: false,
        mime_type: None,
        web_url: None,
        parent_reference: None,
        download_url: None,
        created_date_time: None,
    }
}

#[test]
fn transcript_lookup_picks_the_best_ranked_child() {
    let base = "2026-08-20 14-30 - sprint review";
    let children = vec![
        child("notes.txt"),
        child("2026-08-20 14-30 - Sprint Review-en.vtt"),
        child("2026-08-20 14-30 - Sprint Review.vtt"),
        child("2026-08-20 14-30 - SPRINT REVIEW.VTT"),
    ];
    let picked = pick_transcript(children, base).unwrap();
    assert_eq!(picked.name, "2026-08-20 14-30 - Sprint Review.vtt");
    assert!(pick_transcript(vec![child("a.mp4")], base).is_none());
    assert_eq!(
        transcript_twin_url(B, "d", "/drive/root:/Recordings", "My meeting.mp4"),
        format!("{}/drives/d/root%3A/Recordings/My%20meeting.vtt?$select={}", B, DRIVE_ITEM_SELECT)
    );
    assert_eq!(
        recording_item_url(B, "d", "i"),
        format!("{}/drives/d/items/i?$select={}", B, DRIVE_ITEM_SELECT)
    );
    assert_eq!(parent_drive_of("d", ""), "d");
    assert_eq!(parent_drive_of("d", "p"), "p");
    assert!(lookup_miss(&AppError::GraphApi { message: String::new(), status_code: 404 }));
    assert!(lookup_miss(&AppError::GraphApi { message: String::new(), status_code: 403 }));
    assert!(!lookup_miss(&AppError::GraphApi { message: String::new(), status_code: 500 }));
}

#[test]
fn transcript_file_joins_lines_and_counts_them() {
    let lines = vec!["[00:00:01] A: hi".to_string(), "[00:00:05] B: yo".to_string()];
    let (content, report) = transcript_file(&lines, "m.vtt").unwrap();
    assert_eq!(content, "[00:00:01] A: hi\n[00:00:05] B: yo\n");
    assert_eq!(report.entry_count, 2);
    assert_eq!(report.source_name, "m.vtt");
    assert!(transcript_file(&Vec::new(), "m.vtt").is_none());
    assert!(check_transcript_size(10 * 1024 * 1024, "item_id").is_ok());
    match check_transcript_size(10 * 1024 * 1024 + 1, "save_path") {
        Err(AppError::Validation { message, field }) => {
            assert_eq!(message, "Transcript file is too large to export");
            assert_eq!(field, "save_path");
        }
        other => panic!("unexpected {:?}", other),
    }
}

#[test]
fn unauthorized_helper_sets_www_authenticate() {
    let res = unauthorized();
    assert_eq!(res.status, 401);
    let challenge = res
        .headers
        .iter()
        .find(|(k, _)| k.eq_ignore_ascii_case("WWW-Authenticate"))
        .map(|(_, v)| v.as_str())
        .unwrap_or("");
    assert!(challenge.starts_with("Basic"));
}

#[test]
fn host_check_accepts_only_loopback() {
    assert!(host_allowed(Some("127.0.0.1:3980")));
    assert!(host_allowed(Some("127.0.0.1")));
    assert!(!host_allowed(Some("evil.example.com:3980")));
    assert!(!host_allowed(Some("192.168.1.5:3980")));
    assert!(!host_allowed(None));
}

fn basic(creds: &str) -> String {
    format!("Basic {}", base64::engine::general_purpose::STANDARD.encode(creds))
}

#[test]
fn gateway_routes_only_authorized_mount_paths() {
    assert_eq!(mount_in_path("/m/abc/Documents/a.txt").as_deref(), Some("abc"));
    assert_eq!(mount_in_path("//m/abc").as_deref(), Some("abc"));
    assert_eq!(mount_in_path("/m/"), None);
    assert_eq!(mount_in_path("/x/abc"), None);
    let good = basic("shareonelist:pw");
    assert!(authorized(Some(&good), "pw"));
    assert!(!authorized(Some(&basic("shareonelist:other")), "pw"));
    assert!(!authorized(Some("Bearer abc"), "pw"));
    assert!(!authorized(None, "pw"));
    match gateway_decision(Some("127.0.0.1:3980"), "/m/abc/x", Some(&good), "pw") {
        GatewayDecision::Mount(id) => assert_eq!(id, "abc"),
        other => panic!("unexpected {:?}", other),
    }
    let d = gateway_decision(Some("localhost:3980"), "/m/abc/x", Some(&good), "pw");
    assert_eq!(decision_response(&d).unwrap().status, 403);
    let d = gateway_decision(Some("127.0.0.1"), "/dav/abc", Some(&good), "pw");
    assert_eq!(decision_response(&d).unwrap().body, "unknown path\n");
    let d = gateway_decision(Some("127.0.0.1"), "/m/abc", None, "pw");
    assert_eq!(decision_response(&d).unwrap().status, 401);
    assert_eq!(unknown_mount().status, 404);
    assert_eq!(port_range(3980), (3980, 4030));
    assert_eq!(port_range(65530), (65530, 65535));
}
