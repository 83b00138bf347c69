use share_one_list::graph_items::{
    collect_children_page, dedupe_recordings, drive_from_raw, drive_item_from_raw,
    find_recordings_folder, group_ids, recording_from_hit, search_continues, site_from_raw,
    size_step, DirectoryObject, RawDrive, RawDriveItem, RawFile, RawParentReference, RawQuota,
    RawRemoteItem, RawSite, SearchHit, SizeStep,
};
use share_one_list::models::{DriveItem, MeetingRecording, RecordingSource};

fn raw(id: &str, name: &str) -> RawDriveItem {
    RawDriveItem {
        id: Some(id.to_string()),
        name: Some(name.to_string()),
        size: None,
        last_modified_date_time: None,
        has_folder: false,
        file: None,
        web_url: None,
        parent_reference: None,
        download_url: None,
        created_date_time: None,
        remote_item: None,
        has_package: false,
    }
}

#[test]
fn file_facet_maps_to_file() {
    let mut r = raw("1", "report.docx");
    r.file = Some(RawFile {
        mime_type: Some(
            "application/vnd.openxmlformats-officedocument.wordprocessingml.document".to_string(),
        ),
    });
    let item = drive_item_from_raw(r);
    assert!(!item.is_folder);
    assert_eq!(
        item.mime_type.as_deref(),
        Some("application/vnd.openxmlformats-officedocument.wordprocessingml.document")
    );
}

#[test]
fn folder_facet_maps_to_folder() {
    let mut r = raw("2", "Documents");
    r.has_folder = true;
    assert!(drive_item_from_raw(r).is_folder);
}

#[test]
fn remote_folder_and_package_map_to_folder() {
    let mut remote_folder = raw("3", "Shared Folder");
    remote_folder.remote_item = Some(RawRemoteItem {
        id: None,
        name: None,
        has_folder: true,
        has_package: false,
        parent_reference: None,
    });
    assert!(drive_item_from_raw(remote_folder).is_folder);

    let mut package = raw("4", "Notebook");
    package.has_package = true;
    assert!(drive_item_from_raw(package).is_folder);
}

#[test]
fn shared_shims_take_their_identity_from_the_remote_item() {
    let mut shim = raw("shim", "shim name");
    shim.size = Some(7);
    shim.remote_item = Some(RawRemoteItem {
        id: Some("real".to_string()),
        name: Some("Real.docx".to_string()),
        has_folder: false,
        has_package: false,
        parent_reference: Some(RawParentReference {
            drive_id: Some("other-drive".to_string()),
            id: None,
            path: Some("/drive/root:".to_string()),
            name: None,
        }),
    });
    let item = drive_item_from_raw(shim);
    assert_eq!(item.id, "real");
    assert_eq!(item.name, "Real.docx");
    assert_eq!(item.size, Some(7));
    let parent = item.parent_reference.unwrap();
    assert_eq!(parent.drive_id, "other-drive");
    assert_eq!(parent.id, "");

    let mut own = raw("own", "own.txt");
    own.parent_reference = Some(RawParentReference { drive_id: None, id: Some("p".to_string()), path: None, name: None });
    own.remote_item = Some(RawRemoteItem { id: Some("x".to_string()), name: None, has_folder: true, has_package: false, parent_reference: None });
    let item = drive_item_from_raw(own);
    assert_eq!(item.id, "own");
    assert!(!item.is_folder);
    assert_eq!(item.last_modified, "");
}

#[test]
fn drives_and_sites_fill_in_missing_fields() {
    let d = drive_from_raw(RawDrive {
        id: Some("d".to_string()),
        name: None,
        drive_type: Some("business".to_string()),
        quota: Some(RawQuota { total: Some(10), used: None, remaining: Some(4) }),
    });
    assert_eq!(d.name, "");
    let q = d.quota.unwrap();
    assert_eq!((q.total, q.used, q.remaining), (10, 0, 4));
    let s = site_from_raw(RawSite { id: Some("s".to_string()), display_name: None, name: Some("team".to_string()), web_url: None });
    assert_eq!(s.display_name, "team");
    assert_eq!(s.web_url, "");
    let ids = group_ids(vec![
        DirectoryObject { odata_type: Some("#microsoft.graph.group".to_string()), id: Some("g1".to_string()) },
        DirectoryObject { odata_type: Some("#microsoft.graph.user".to_string()), id: Some("u1".to_string()) },
        DirectoryObject { odata_type: Some("#microsoft.graph.group".to_string()), id: None },
        DirectoryObject { odata_type: None, id: Some("x".to_string()) },
    ]);
    assert_eq!(ids, vec!["g1".to_string()]);
}

fn item(id: &str, name: &str, is_folder: bool) -> DriveItem {
    DriveItem {
        id: id.to_string(),
        name: name.to_string(),
        size: Some(5),
        last_modified: String::new(),
        is_folder,
        mime_type: None,
        web_url: None,
        parent_reference: None,
        download_url: None,
        created_date_time: None,
    }
}

#[test]
fn listing_walks_keep_files_with_ids_up_to_a_cap() {
    let mut items = Vec::new();
    let full = collect_children_page(
        &mut items,
        vec![item("", "noid.mp4", false), item("f", "Folder", true), item("a", "a.mp4", false)],
        3,
        false,
    );
    assert!(!full);
    assert_eq!(items.len(), 1);
    let full = collect_children_page(
        &mut items,
        vec![item("b", "b.mp4", false), item("c", "c.mp4", false), item("d", "d.mp4", false)],
        3,
        true,
    );
    assert!(full);
    assert_eq!(items.iter().map(|i| i.id.as_str()).collect::<Vec<_>>(), vec!["a", "b", "c"]);
    assert!(matches!(size_step(&item("f", "Folder", true)), SizeStep::Descend(id) if id == "f"));
    assert!(matches!(size_step(&item("", "Folder", true)), SizeStep::Add(5)));
    let entries = vec![item("1", "Docs", true), item("2", "recordings", false), item("3", "会议录制", true)];
    assert_eq!(find_recordings_folder(&entries), Some(2));
}

fn hit(name: &str, id: &str, drive: &str) -> SearchHit {
    SearchHit {
        name: Some(name.to_string()),
        id: Some(id.to_string()),
        drive_id: Some(drive.to_string()),
        size: Some(10),
        last_modified: Some("2024-05-01T10:00:00Z".to_string()),
        mime_type: Some("video/mp4".to_string()),
        web_url: None,
        created: None,
    }
}

#[test]
fn search_hits_become_shared_recordings() {
    let r = recording_from_hit(hit("Standup.MP4", "i1", "theirs"), "mine").unwrap();
    assert_eq!(r.drive_id, "theirs");
    assert_eq!(r.source_type, RecordingSource::Search);
    assert_eq!(r.item.last_modified, "2024-05-01T10:00:00Z");
    assert!(recording_from_hit(hit("Standup.mp4", "i1", "mine"), "mine").is_none());
    assert!(recording_from_hit(hit("notes.txt", "i1", "theirs"), "mine").is_none());
    assert!(recording_from_hit(hit("a.mp4", "", "theirs"), "mine").is_none());
    assert!(search_continues(0, 50));
    assert!(!search_continues(0, 49));
    assert!(!search_continues(3, 50));
}

#[test]
fn recordings_found_twice_are_kept_once() {
    let rec = |drive: &str, id: &str, source: RecordingSource| MeetingRecording {
        drive_id: drive.to_string(),
        item: item(id, "x.mp4", false),
        source_type: source,
        source_name: String::new(),
    };
    let out = dedupe_recordings(vec![
        rec("d1", "a", RecordingSource::OneDrive),
        rec("d2", "a", RecordingSource::Search),
        rec("d1", "a", RecordingSource::Search),
        rec("d1", "b", RecordingSource::Search),
    ]);
    assert_eq!(out.len(), 3);
    assert_eq!(out[0].source_type, RecordingSource::OneDrive);
    assert_eq!(out[2].item.id, "b");
}
