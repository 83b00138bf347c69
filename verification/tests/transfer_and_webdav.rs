use share_one_list::cache::{CachedItem, PathCache};
use share_one_list::download::{
    batch_status_from_statuses, calculate_chunks, chunk_downloaded_sum, restore_task,
    task_status_from_str, task_status_string, ChunkState, PersistedChunk, PersistedTask,
    TaskStatus,
};
use share_one_list::errors::AppError;
use share_one_list::models::CloudEnvironment;
use share_one_list::mounts::{
    base_url, config_or_default, generate_mount_id, generate_password, mount_url, MountConfig,
    MountEntry, MountStore,
};
use share_one_list::platform::{
    choose_letter, diagnose, mount_result, remote_matches_mount, remote_name, unmount_result,
    wide, HostPlatform,
};
use share_one_list::webdav_fs::{
    decode_segments, fs_error, graph_item_path_url, is_junk_file, raw_to_cached, sort_children,
    FsErrorKind, GraphMeta, RawItem,
};

#[test]
fn chunks_cover_the_entire_file() {
    let total = 10_000_000u64;
    let chunks = calculate_chunks(total);
    assert_eq!(chunks.len(), 8);

    let covered: u64 = chunks.iter().map(|c| c.end - c.start + 1).sum();
    assert_eq!(covered, total);
    assert!(chunks.iter().all(|c| c.end >= c.start));
}

#[test]
fn small_files_get_one_chunk_per_started_mebibyte() {
    assert_eq!(calculate_chunks(0), vec![ChunkState { start: 0, end: 0, downloaded: 0 }]);
    assert_eq!(calculate_chunks(1), vec![ChunkState { start: 0, end: 0, downloaded: 0 }]);
    let chunks = calculate_chunks(1_048_577);
    assert_eq!(chunks.len(), 2);
    assert_eq!(chunks[0], ChunkState { start: 0, end: 524_288, downloaded: 0 });
    assert_eq!(chunks[1], ChunkState { start: 524_289, end: 1_048_576, downloaded: 0 });
    for c in calculate_chunks(8 * 1_048_576) {
        assert!(c.end - c.start + 1 <= 1_048_576);
    }
}

#[test]
fn batch_status_stays_downloading_until_all_children_finish() {
    assert_eq!(
        batch_status_from_statuses(&[
            TaskStatus::Completed,
            TaskStatus::Downloading,
            TaskStatus::Paused,
        ]),
        TaskStatus::Downloading
    );
    assert_eq!(
        batch_status_from_statuses(&[TaskStatus::Completed, TaskStatus::Completed]),
        TaskStatus::Completed
    );
}

#[test]
fn batch_status_reports_failures_and_pauses() {
    assert_eq!(batch_status_from_statuses(&[]), TaskStatus::Paused);
    assert_eq!(
        batch_status_from_statuses(&[TaskStatus::Completed, TaskStatus::Failed("x".into())]),
        TaskStatus::Failed("Some files failed to download".into())
    );
    assert_eq!(
        batch_status_from_statuses(&[TaskStatus::Paused, TaskStatus::Completed]),
        TaskStatus::Paused
    );
    assert_eq!(
        batch_status_from_statuses(&[TaskStatus::Failed(String::new()), TaskStatus::Queued]),
        TaskStatus::Downloading
    );
}

#[test]
fn status_names_round_trip() {
    for s in [TaskStatus::Queued, TaskStatus::Downloading, TaskStatus::Paused, TaskStatus::Completed] {
        assert_eq!(task_status_from_str(&task_status_string(&s)), Some(s));
    }
    assert_eq!(task_status_string(&TaskStatus::Failed("boom".into())), "failed");
    assert_eq!(task_status_from_str("failed"), Some(TaskStatus::Failed(String::new())));
    assert_eq!(task_status_from_str("bogus"), None);
}

#[test]
fn interrupted_task_restores_as_paused_with_exact_progress() {
    let persisted = PersistedTask {
        id: "task-1".to_string(),
        file_name: "file.bin".to_string(),
        home_account_id: "account-1".to_string(),
        drive_id: "drive".to_string(),
        item_id: "item".to_string(),
        local_path: "C:\\downloads\\file.bin".to_string(),
        total_bytes: 1024,
        status: "downloading".to_string(),
        cloud_env: "global".to_string(),
        url_obtained_at: "2026-08-14T00:00:00Z".to_string(),
        chunks: vec![PersistedChunk { start: 0, end: 1023, downloaded: 512 }],
        batch_id: "batch-1".to_string(),
        etag: None,
    };

    let task = restore_task(persisted, ".", 1_000_000);
    assert_eq!(task.status, TaskStatus::Paused);
    assert_eq!(task.downloaded_bytes, 512);
    assert_eq!(task.batch_id, "batch-1");
    assert_eq!(task.url_obtained_at, 1_786_665_600);
    assert!(task.persist_path.ends_with("task-1.json"));
}

#[test]
fn restore_keeps_finished_states_and_dates_unreadable_urls_stale() {
    let mut persisted = PersistedTask {
        id: "t".to_string(),
        file_name: "f".to_string(),
        home_account_id: "a".to_string(),
        drive_id: "d".to_string(),
        item_id: "i".to_string(),
        local_path: "p".to_string(),
        total_bytes: 2,
        status: "completed".to_string(),
        cloud_env: "china".to_string(),
        url_obtained_at: "not a date".to_string(),
        chunks: vec![],
        batch_id: "b".to_string(),
        etag: Some("e".to_string()),
    };
    let task = restore_task(persisted.clone(), ".", 10_000);
    assert_eq!(task.status, TaskStatus::Completed);
    assert_eq!(task.url_obtained_at, 10_000 - 7200);
    persisted.status = "failed".to_string();
    assert_eq!(restore_task(persisted, ".", 10_000).status, TaskStatus::Failed(String::new()));
    assert_eq!(
        chunk_downloaded_sum(&[
            ChunkState { start: 0, end: 9, downloaded: 4 },
            ChunkState { start: 10, end: 19, downloaded: 6 }
        ]),
        10
    );
}

fn item(name: &str, is_dir: bool) -> CachedItem {
    CachedItem {
        id: format!("id-{}", name),
        name: name.to_string(),
        size: 0,
        is_dir,
        mime: None,
        etag: None,
        modified: None,
        created: None,
    }
}

#[test]
fn put_and_get_item_round_trip() {
    let mut cache = PathCache::new();
    cache.put_item("a/b.txt", item("b.txt", false));
    assert_eq!(cache.get_item("a/b.txt").unwrap().name, "b.txt");
    assert!(cache.get_item("a/other.txt").is_none());
}

#[test]
fn listing_does_not_evict_dir_metadata() {
    let mut cache = PathCache::new();
    cache.put_item("dir", item("dir", true));
    cache.put_children("dir", vec![item("x.txt", false)]);
    assert!(cache.get_item("dir").is_some());
    assert!(cache.get_children("dir").is_some());
}

#[test]
fn invalidate_parent_drops_listing_and_entry() {
    let mut cache = PathCache::new();
    cache.put_item("dir", item("dir", true));
    cache.put_children("dir", vec![item("x.txt", false)]);
    cache.put_item("dir/x.txt", item("x.txt", false));

    cache.invalidate_parent("dir/x.txt");

    assert!(cache.get_item("dir/x.txt").is_none());
    assert!(cache.get_children("dir").is_none());
    assert!(cache.get_item("dir").is_some());
}

#[test]
fn entries_expire_after_the_time_to_live() {
    let mut cache = PathCache::new();
    cache.put_item_at("a", item("a", false), 1_000);
    assert!(cache.get_item_at("a", 31_000).is_some());
    assert!(cache.get_item_at("a", 31_001).is_none());
    cache.put_children_at("", vec![item("a", false)], 0);
    assert_eq!(cache.get_children_at("", 30_000).unwrap().len(), 1);
    cache.invalidate_dir("");
    assert!(cache.get_children_at("", 0).is_none());
}

#[test]
fn written_paths_never_read_stale() {
    let mut cache = PathCache::new();
    for path in ["a/b", "a/c", "x/y", "root"] {
        let parent = match path.rfind('/') {
            Some(i) => &path[..i],
            None => "",
        };
        cache.put_item(path, item("new", false));
        cache.put_children(parent, vec![item("new", false)]);
        cache.invalidate_parent(path);
        assert!(cache.get_item(path).is_none());
        assert!(cache.get_children(parent).is_none());
    }
}

#[test]
fn junk_files_are_detected() {
    assert!(is_junk_file(".DS_Store"));
    assert!(is_junk_file("._notes"));
    assert!(is_junk_file("Thumbs.db"));
    assert!(is_junk_file("desktop.ini"));
    assert!(!is_junk_file("report.docx"));
    assert!(!is_junk_file(".gitignore"));
    assert!(!is_junk_file("Thumbs-up.png"));
}

#[test]
fn children_sort_dirs_first_then_name() {
    let mut items = vec![
        item("b.txt", false),
        item(" Folder", true),
        item("Apple", false),
        item("zeta", true),
        item("Ápple", false),
    ];
    sort_children(&mut items);
    let names: Vec<&str> = items.iter().map(|i| i.name.as_str()).collect();
    assert_eq!(names, vec![" Folder", "zeta", "Apple", "b.txt", "Ápple"]);
}

#[test]
fn decode_segments_handles_root_and_nesting() {
    assert!(decode_segments(b"/").is_empty());
    assert!(decode_segments(b"").is_empty());
    assert_eq!(
        decode_segments(b"/docs/2026/report final.docx"),
        vec!["docs", "2026", "report final.docx"]
    );
    assert_eq!(decode_segments(b"//a//b/"), vec!["a", "b"]);
}

#[test]
fn graph_urls_encode_specials_and_colon_syntax() {
    let base = "https://graph.microsoft.com/v1.0";
    assert_eq!(graph_item_path_url(base, "d1", "", &[]), format!("{}/drives/d1/root", base));
    assert_eq!(
        graph_item_path_url(base, "d1", "", &["a b".to_string(), "c#1.txt".to_string()]),
        format!("{}/drives/d1/root:/a%20b/c%231.txt", base)
    );
    assert_eq!(
        graph_item_path_url(base, "d1", "item-9", &[]),
        format!("{}/drives/d1/items/item-9", base)
    );
    assert_eq!(
        graph_item_path_url(base, "d1", "item-9", &["x".to_string()]),
        format!("{}/drives/d1/items/item-9:/x", base)
    );
    assert_eq!(
        graph_item_path_url(base, "d1", "", &["é?".to_string()]),
        format!("{}/drives/d1/root:/%C3%A9%3F", base)
    );
}

#[test]
fn graph_items_map_to_metadata() {
    let cached = raw_to_cached(RawItem {
        id: "i".into(),
        name: "n".into(),
        size: 7,
        is_folder: true,
        mime_type: None,
        e_tag: Some("e".into()),
        last_modified_date_time: Some("1970-01-01T00:01:00Z".into()),
        created_date_time: Some("garbage".into()),
    });
    assert_eq!(cached.modified, Some(60));
    assert_eq!(cached.created, None);
    let meta = GraphMeta(cached);
    assert!(meta.is_dir());
    assert_eq!(meta.len(), 7);
    assert_eq!(meta.etag().as_deref(), Some("e"));
}

#[test]
fn app_errors_map_to_webdav_failures() {
    let e = |code| AppError::GraphApi { message: String::new(), status_code: code };
    assert_eq!(fs_error(&e(404)), FsErrorKind::NotFound);
    assert_eq!(fs_error(&e(403)), FsErrorKind::Forbidden);
    assert_eq!(fs_error(&e(500)), FsErrorKind::GeneralFailure);
    assert_eq!(
        fs_error(&AppError::Auth { message: String::new(), cloud_env: CloudEnvironment::Global }),
        FsErrorKind::Forbidden
    );
}

fn entry(id: &str, drive: &str) -> MountEntry {
    MountEntry {
        mount_id: id.to_string(),
        cloud_env: CloudEnvironment::China,
        home_account_id: "acc".to_string(),
        drive_id: drive.to_string(),
        root_item_id: String::new(),
        label: "站点/文档库".to_string(),
        drive_letter: Some("Z".to_string()),
    }
}

#[test]
fn load_missing_file_returns_default_with_password() {
    let config = config_or_default(None);
    assert!(config.mounts.is_empty());
    assert_eq!(config.port, 3980);
    assert_eq!(config.gateway_password.len(), 64);
    let store = MountStore::new("/tmp/x");
    assert_eq!(store.file_name, "webdav-mounts.json");
}

#[test]
fn generated_passwords_are_unique_and_hex() {
    let a = generate_password();
    let b = generate_password();
    assert_ne!(a, b);
    assert!(a.chars().all(|c| c.is_ascii_hexdigit()));
    assert_eq!(generate_mount_id().len(), 12);
}

#[test]
fn mount_list_refuses_duplicates_and_unknown_ids() {
    let mut config = MountConfig::default();
    assert!(config.add_mount(entry("m1", "d1")).is_ok());
    assert_eq!(config.add_mount(entry("m2", "d1")).unwrap_err(), "duplicate_mount");
    assert!(config.add_mount(entry("m2", "d2")).is_ok());
    assert!(config.set_drive_letter("m2", None).is_ok());
    assert_eq!(config.mounts[1].drive_letter, None);
    assert_eq!(config.remove_mount("nope").unwrap_err(), "mount_not_found");
    assert!(config.remove_mount("m1").is_ok());
    assert_eq!(config.mounts.len(), 1);
    let status = config.status(true, 3990, &vec![true]);
    assert_eq!(status.base_url, "http://127.0.0.1:3990");
    assert_eq!(status.mounts[0].url, "http://127.0.0.1:3990/m/m2");
    assert!(status.mounts[0].mounted);
    let stopped = config.status(false, 3990, &vec![true]);
    assert_eq!(stopped.mounts[0].url, "");
    assert!(!stopped.mounts[0].mounted);
    assert_eq!(config.connection_info(false, 1, "m2").unwrap_err(), "server_not_running");
    let (e, info, port) = config.connection_info(true, 4000, "m2").unwrap();
    assert_eq!(e.mount_id, "m2");
    assert_eq!(info.url, mount_url(4000, "m2"));
    assert_eq!(info.username, "shareonelist");
    assert_eq!(port, 4000);
    assert_eq!(base_url(1), "http://127.0.0.1:1");
}

#[test]
fn diagnosis_serializes_with_issue_codes() {
    let d = diagnose(HostPlatform::Windows, Some("stopped".to_string()), Some(1), Some(50_000_000));
    assert_eq!(d.platform, "windows");
    assert_eq!(d.webclient_state.as_deref(), Some("stopped"));
    assert_eq!(d.file_size_limit_in_bytes, Some(50_000_000));
    assert_eq!(d.issues, vec!["webclient_stopped", "basic_auth_blocked", "file_size_limited"]);
    assert!(d.fixable);

    let d = diagnose(HostPlatform::Windows, Some("not_installed".to_string()), None, None);
    assert_eq!(d.issues[0], "webclient_not_installed");
    assert_eq!(d.file_size_limit_in_bytes, Some(50_000_000));
    assert!(!d.fixable);

    let d = diagnose(HostPlatform::Windows, Some("running".to_string()), Some(2), Some(4_294_967_295));
    assert!(d.issues.is_empty());
    assert!(!d.fixable);

    assert_eq!(diagnose(HostPlatform::Other, None, None, None).issues, vec!["platform_not_supported"]);
    assert!(diagnose(HostPlatform::MacOs, None, None, None).issues.is_empty());
}

#[test]
fn windows_mapping_helpers() {
    assert_eq!(wide("A"), vec![0x41, 0]);
    assert_eq!(wide("😀"), vec![0xD83D, 0xDE00, 0]);
    assert_eq!(remote_name(3980, "abc"), "\\\\127.0.0.1@3980\\m\\abc");
    assert!(remote_matches_mount("\\\\127.0.0.1@3980\\m\\abc", "abc"));
    assert!(!remote_matches_mount("\\\\127.0.0.1@3980\\m\\abcd", "abc"));
    assert_eq!(mount_result(0, "X:".to_string()).unwrap(), "X:");
    assert_eq!(mount_result(5, String::new()).unwrap_err(), "access_denied_check_diagnostics");
    assert_eq!(mount_result(1326, String::new()).unwrap_err(), "invalid_credentials");
    assert_eq!(mount_result(7, String::new()).unwrap_err(), "mount_failed_windows_error_7");
    assert!(unmount_result(2250).is_ok());
    assert_eq!(unmount_result(9).unwrap_err(), "unmount_failed_windows_error_9");
}

#[test]
fn drive_letters_prefer_the_request_then_late_letters() {
    let mut used = vec![false; 26];
    assert_eq!(choose_letter(Some(" q: "), &used).as_deref(), Some("Q"));
    used[16] = true;
    assert_eq!(choose_letter(Some("q"), &used).as_deref(), Some("Z"));
    used[25] = true;
    assert_eq!(choose_letter(None, &used).as_deref(), Some("Y"));
    let all = vec![true; 26];
    assert_eq!(choose_letter(Some("E"), &all), None);
    assert_eq!(choose_letter(Some("EF"), &vec![false; 26]).as_deref(), Some("Z"));
}

#[test]
fn cache_stays_within_its_cap_evicting_least_recent_first() {
    let mut cache = PathCache::new();
    for i in 0..5000 {
        cache.put_item(&format!("f{}", i), item("f", false));
    }
    // Reading f0 makes it the most recently used key.
    assert!(cache.get_item("f0").is_some());
    cache.put_item("new", item("new", false));
    // 5001 slots were over the cap: f1, now the least recently used, went.
    assert!(cache.get_item("f1").is_none());
    assert!(cache.get_item("f0").is_some());
    assert!(cache.get_item("f2").is_some());
    assert!(cache.get_item("new").is_some());
}

#[test]
fn children_with_equal_keys_keep_their_order() {
    let mut items = vec![
        item("b.txt", false),
        item("A.txt", false),
        item("x", true),
        item("a.txt", false),
        item("X", true),
    ];
    sort_children(&mut items);
    let names: Vec<&str> = items.iter().map(|i| i.name.as_str()).collect();
    assert_eq!(names, vec!["x", "X", "A.txt", "a.txt", "b.txt"]);
}
