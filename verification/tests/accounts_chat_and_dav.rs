use share_one_list::cache::CachedItem;
use share_one_list::catalog::{deep_index_status, listing_failure, listing_page, seed_writes, ChildEntry};
use share_one_list::dav_file::{
    after_fill, children_page_url, download_url_lookup, download_url_of, new_cursor, open_allowed,
    open_failure, prepared_listing, read_step, seek, serve, OpenRequest, ReadStep, SeekOrigin,
    PREFETCH_CHUNK,
};
use share_one_list::errors::AppError;
use share_one_list::llm_chat::{effective_api_key, prepare_chat};
use share_one_list::llm_client::{build_system_prompt, LlmChatMessage};
use share_one_list::llm_config::{
    LlmConfig, LlmModelConfig, LlmModelRef, LlmProviderConfig, LlmProviderKind, LlmProviderPreset,
};
use share_one_list::models::{AccountCategory, AccountEntry, CloudEnvironment};
use share_one_list::mounts::{mount_root_item, mount_root_segments, parse_mount_env};
use share_one_list::sessions::{
    accounts_after_logout, apply_account_category, me_drive_url, me_url, own_drive_id,
    update_account_labels,
};
use share_one_list::webdav_fs::FsErrorKind;

fn account(home: &str, drive: &str, env: CloudEnvironment, name: &str) -> AccountEntry {
    AccountEntry {
        home_account_id: home.to_string(),
        drive_id: drive.to_string(),
        cloud_type: env,
        display_name: name.to_string(),
        account_type: None,
        alias: Some("old".to_string()),
        icon: None,
    }
}

// ── Accounts ────────────────────────────────────────────────────────────

#[test]
fn logout_removes_the_account_or_the_whole_cloud() {
    let accounts = vec![
        account("a", "d1", CloudEnvironment::Global, "A"),
        account("b", "d2", CloudEnvironment::China, "B"),
        account("c", "d3", CloudEnvironment::Global, "C"),
    ];
    let one = accounts_after_logout(accounts.clone(), &CloudEnvironment::Global, Some("a"));
    assert_eq!(one.iter().map(|a| a.home_account_id.as_str()).collect::<Vec<_>>(), vec!["b", "c"]);
    let cloud = accounts_after_logout(accounts, &CloudEnvironment::Global, None);
    assert_eq!(cloud.iter().map(|a| a.home_account_id.as_str()).collect::<Vec<_>>(), vec!["b"]);
}

#[test]
fn update_account_trims_labels_and_blank_resets() {
    let accounts = vec![account("a", "d1", CloudEnvironment::Global, "A")];
    let (out, e) = update_account_labels(
        accounts.clone(),
        &CloudEnvironment::Global,
        "a",
        Some("  Work  ".into()),
        Some("star-amber".into()),
    )
    .unwrap();
    assert_eq!(e.alias.as_deref(), Some("Work"));
    assert_eq!(e.icon.as_deref(), Some("star-amber"));
    assert_eq!(out[0].alias.as_deref(), Some("Work"));
    let (_, e) = update_account_labels(accounts.clone(), &CloudEnvironment::Global, "a", Some("  ".into()), None).unwrap();
    assert_eq!(e.alias, None);
    let (_, e) = update_account_labels(accounts.clone(), &CloudEnvironment::Global, "a", None, None).unwrap();
    assert_eq!(e.alias.as_deref(), Some("old"));
    match update_account_labels(accounts, &CloudEnvironment::China, "a", None, None) {
        Err(AppError::Validation { message, field }) => {
            assert_eq!(message, "Account 'a' not found.");
            assert_eq!(field, "home_account_id");
        }
        other => panic!("unexpected {:?}", other),
    }
}

#[test]
fn refreshed_category_replaces_only_a_known_kind() {
    let mut accounts = vec![account("a", "d1", CloudEnvironment::Global, "A")];
    accounts[0].account_type = Some(AccountCategory::Organization);
    let (out, r) = apply_account_category(accounts.clone(), &CloudEnvironment::Global, "a", None);
    assert_eq!(r, Some(Some(AccountCategory::Organization)));
    assert_eq!(out[0].account_type, Some(AccountCategory::Organization));
    let (out, r) = apply_account_category(accounts.clone(), &CloudEnvironment::Global, "a", Some(AccountCategory::Personal));
    assert_eq!(r, Some(Some(AccountCategory::Personal)));
    assert_eq!(out[0].account_type, Some(AccountCategory::Personal));
    let (_, r) = apply_account_category(accounts, &CloudEnvironment::Global, "zz", Some(AccountCategory::Personal));
    assert_eq!(r, None);
}

#[test]
fn me_requests_and_drive_id() {
    assert_eq!(me_drive_url("https://g/v1.0"), "https://g/v1.0/me/drive?$select=id,driveType");
    assert_eq!(me_url("https://g/v1.0"), "https://g/v1.0/me?$select=displayName");
    assert_eq!(own_drive_id(Some("d1".into())).unwrap(), "d1");
    for missing in [None, Some(String::new())] {
        match own_drive_id(missing) {
            Err(AppError::GraphApi { message, status_code }) => {
                assert_eq!(message, "The account does not have a personal OneDrive drive");
                assert_eq!(status_code, 0);
            }
            other => panic!("unexpected {:?}", other),
        }
    }
}

// ── Chat requests ───────────────────────────────────────────────────────

fn config() -> LlmConfig {
    LlmConfig {
        providers: vec![LlmProviderConfig {
            id: "p1".into(),
            name: "P1".into(),
            preset: LlmProviderPreset::Custom,
            kind: LlmProviderKind::OpenAiCompatible,
            base_url: "https://example.com/v1".into(),
            api_version: None,
            models: vec![
                LlmModelConfig { id: "a".into(), model_id: "gpt-4o".into(), display_name: "A".into() },
                LlmModelConfig { id: "b".into(), model_id: "o3".into(), display_name: "B".into() },
            ],
            has_api_key: true,
        }],
        default_model: Some(LlmModelRef { provider_id: "p1".into(), model_id: "gpt-4o".into() }),
    }
}

fn msg(role: &str, content: &str) -> LlmChatMessage {
    LlmChatMessage { role: role.into(), content: content.into() }
}

fn validation<T: std::fmt::Debug>(r: Result<T, AppError>) -> (String, String) {
    match r {
        Err(AppError::Validation { message, field }) => (message, field),
        other => panic!("unexpected {:?}", other),
    }
}

#[test]
fn chat_request_prepends_backend_prompt_and_promotes_model() {
    let messages = vec![msg("system", "ignore me"), msg("user", "hi"), msg("assistant", "yo")];
    let (req, key) = prepare_chat(
        &config(), "p1", "o3", messages, &Vec::new(), Some("high".into()), Some("sk".into()),
        Some("  ".into()), "req_1".into(),
    )
    .unwrap();
    assert_eq!(key, "sk");
    assert_eq!(req.request_id, "req_1");
    assert_eq!(req.provider.models[0].model_id, "o3");
    assert_eq!(req.provider.models[1].model_id, "gpt-4o");
    assert_eq!(req.messages.len(), 3);
    assert_eq!(req.messages[0].role, "system");
    assert_eq!(req.messages[0].content, build_system_prompt(&[]));
    assert_eq!(req.messages[1].content, "hi");
    assert_eq!(req.reasoning_effort.as_deref(), Some("high"));
    let (req, _) = prepare_chat(
        &config(), "p1", "gpt-4o", vec![msg("user", "x")], &Vec::new(), Some("max".into()),
        Some("sk".into()), Some("client-7".into()), "req_2".into(),
    )
    .unwrap();
    assert_eq!(req.request_id, "client-7");
    assert_eq!(req.reasoning_effort, None);
}

#[test]
fn chat_request_checks_in_order() {
    let c = config();
    let none: Vec<LlmChatMessage> = Vec::new();
    assert_eq!(
        validation(prepare_chat(&c, "zz", "o3", none, &Vec::new(), None, None, None, "r".into())),
        ("chat messages must not be empty".to_string(), "messages".to_string())
    );
    assert_eq!(
        validation(prepare_chat(&c, "zz", "o3", vec![msg("user", "x")], &Vec::new(), None, None, None, "r".into())),
        ("provider not found".to_string(), "providerId".to_string())
    );
    assert_eq!(
        validation(prepare_chat(&c, "p1", "nope", vec![msg("user", "x")], &Vec::new(), None, None, None, "r".into())),
        ("model not found on provider".to_string(), "modelId".to_string())
    );
    assert_eq!(
        validation(prepare_chat(&c, "p1", "o3", vec![msg("user", "x")], &Vec::new(), None, None, None, "r".into())),
        ("API key is not configured for this provider".to_string(), "apiKey".to_string())
    );
}

#[test]
fn connection_test_key_prefers_the_given_one() {
    assert_eq!(effective_api_key(Some("k1".into()), Some("k2".into())).unwrap(), "k1");
    assert_eq!(effective_api_key(Some(String::new()), Some("k2".into())).unwrap(), "k2");
    assert_eq!(effective_api_key(None, Some("k2".into())).unwrap(), "k2");
    assert_eq!(
        validation(effective_api_key(None, None)),
        ("API key is required".to_string(), "apiKey".to_string())
    );
}

// ── WebDAV files ────────────────────────────────────────────────────────

fn item(name: &str, is_dir: bool) -> CachedItem {
    CachedItem {
        id: name.to_string(),
        name: name.to_string(),
        size: 1,
        is_dir,
        mime: None,
        etag: None,
        modified: None,
        created: None,
    }
}

#[test]
fn listing_drops_junk_and_puts_folders_first() {
    let out = prepared_listing(vec![
        item("b.txt", false),
        item(".DS_Store", false),
        item("Zeta", true),
        item("._a.txt", false),
        item("a.txt", false),
        item("Alpha", true),
    ]);
    let names: Vec<&str> = out.iter().map(|i| i.name.as_str()).collect();
    assert_eq!(names, vec!["Alpha", "Zeta", "a.txt", "b.txt"]);
}

#[test]
fn opens_are_read_only() {
    let read = OpenRequest { read: true, write: false, append: false, truncate: false, create: false, create_new: false };
    assert!(open_allowed(&read));
    assert_eq!(open_failure(&read, false), None);
    assert_eq!(open_failure(&read, true), Some(FsErrorKind::Forbidden));
    let write = OpenRequest { write: true, ..read };
    assert_eq!(open_failure(&write, false), Some(FsErrorKind::Forbidden));
    let nothing = OpenRequest { read: false, ..read };
    assert!(!open_allowed(&nothing));
}

#[test]
fn reads_prefetch_then_serve_from_the_buffer() {
    let size: u64 = 10 * 1024 * 1024;
    let c = new_cursor(size);
    assert_eq!(read_step(&c, 0), ReadStep::End);
    assert_eq!(read_step(&c, 100), ReadStep::Fill { start: 0, end: PREFETCH_CHUNK as u64 - 1 });
    let c = after_fill(&c, PREFETCH_CHUNK);
    assert_eq!(read_step(&c, 100), ReadStep::Serve);
    let (offset, take, c) = serve(&c, 100);
    assert_eq!((offset, take, c.pos), (0, 100, 100));
    let (offset, take, c) = serve(&c, 50);
    assert_eq!((offset, take, c.pos), (100, 50, 150));
    // Near the end the fill is cut to the file's size.
    let c = seek(&c, SeekOrigin::End(-10)).unwrap();
    assert_eq!(c.pos, size - 10);
    assert_eq!(read_step(&c, 100), ReadStep::Fill { start: size - 10, end: size - 1 });
    let c = after_fill(&c, 10);
    let (_, take, c) = serve(&c, 100);
    assert_eq!(take, 10);
    assert_eq!(read_step(&c, 1), ReadStep::End);
    // A seek before the buffer forces a new fill.
    let c = seek(&c, SeekOrigin::Start(5)).unwrap();
    assert!(matches!(read_step(&c, 1), ReadStep::Fill { start: 5, .. }));
    assert!(seek(&c, SeekOrigin::Current(-6)).is_err());
    assert!(seek(&c, SeekOrigin::Start(u64::MAX)).is_err());
}

#[test]
fn dav_requests_and_download_address() {
    assert_eq!(
        children_page_url("https://g", "d", "i"),
        "https://g/drives/d/items/i/children?$top=999&$select=id,name,size,file,folder,lastModifiedDateTime,eTag,createdDateTime"
    );
    assert_eq!(
        download_url_lookup("https://g", "d", "i"),
        "https://g/drives/d/items/i?$select=id,@microsoft.graph.downloadUrl"
    );
    assert_eq!(download_url_of(Some("https://dl".into())).unwrap(), "https://dl");
    match download_url_of(None) {
        Err(AppError::GraphApi { message, .. }) => assert_eq!(message, "Graph did not return a download URL"),
        other => panic!("unexpected {:?}", other),
    }
}

// ── Mounts ──────────────────────────────────────────────────────────────

#[test]
fn mount_root_resolution() {
    assert_eq!(mount_root_segments("   "), None);
    assert_eq!(mount_root_segments("/a//b/").unwrap(), vec!["a".to_string(), "b".to_string()]);
    assert_eq!(mount_root_item("/a", Ok(item("a", true))).unwrap(), "a");
    match mount_root_item("/a.txt", Ok(item("a.txt", false))) {
        Err(AppError::Validation { message, field }) => {
            assert_eq!(message, "mount root path is not a folder: /a.txt");
            assert_eq!(field, "rootPath");
        }
        other => panic!("unexpected {:?}", other),
    }
    match mount_root_item("/x", Err("NotFound".into())) {
        Err(AppError::GraphApi { message, status_code }) => {
            assert_eq!(message, "mount root path not found: /x");
            assert_eq!(status_code, 404);
        }
        other => panic!("unexpected {:?}", other),
    }
    assert_eq!(parse_mount_env("CHINA").unwrap(), CloudEnvironment::China);
    match parse_mount_env("mars") {
        Err(AppError::Validation { message, field }) => {
            assert_eq!(message, "Invalid cloud environment 'mars'.");
            assert_eq!(field, "cloudEnv");
        }
        other => panic!("unexpected {:?}", other),
    }
}

// ── Catalog seeding ─────────────────────────────────────────────────────

#[test]
fn seeding_requests_and_writes() {
    assert_eq!(
        listing_page("https://g", "d", None, None),
        "https://g/drives/d/root/children?$top=200&$select=id,name,folder,file,parentReference"
    );
    assert_eq!(
        listing_page("https://g", "d", Some("f"), None),
        "https://g/drives/d/items/f/children?$top=200&$select=id,name,folder,file,parentReference"
    );
    assert_eq!(listing_page("https://g", "d", Some("f"), Some("https://next")), "https://next");
    match listing_failure(503) {
        AppError::GraphApi { message, status_code } => {
            assert_eq!(message, "catalog listing failed: HTTP 503");
            assert_eq!(status_code, 503);
        }
        other => panic!("unexpected {:?}", other),
    }
    let entries = vec![ChildEntry {
        item_id: "01F".into(),
        name: "Lab".into(),
        path: "Lab".into(),
        kind: "folder".into(),
    }];
    let w = seed_writes(&entries);
    assert_eq!(w.len(), 1);
    assert_eq!(w[0].0.path, "Lab");
    assert_eq!(w[0].0.desc, "");
    assert_eq!(w[0].1, 0);
    assert_eq!(deep_index_status(true), "cancelled");
    assert_eq!(deep_index_status(false), "ready");
}
