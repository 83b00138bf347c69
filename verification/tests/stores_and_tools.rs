use share_one_list::catalog::{index_key, needs_seed, parse_catalog_env, query_limit, query_scope};
use share_one_list::llm_client::{ping_model, send_failure};
use share_one_list::catalog::{query_statement, retain_matching_hits, CatalogHit};
use share_one_list::chat_store::{
    auto_memory_rows, counter_key, extract_every_setting, extraction_requirements,
    memories_to_forget, memory_content, message_time, next_extraction_step, read_counter,
    title_from_message, ExtractionStep, PreviousMemory,
};
use share_one_list::downloader::{
    downloader_action, launch_failed, rpc_reply_outcome, rpc_unreachable, DownloaderAction,
    RpcReply,
};
use share_one_list::errors::AppError;
use share_one_list::llm_config::{
    LlmConfig, LlmModelConfig, LlmModelRef, LlmProviderConfig, LlmProviderKind, LlmProviderPreset,
};
use share_one_list::models::{
    AccountEntry, AppConfig, CloudEnvironment, DownloaderType, ExternalDownloaderConfig,
};
use share_one_list::settings::{
    auto_backup_target, backup_dir_setting, merge_legacy_drives, read_backup_bundle,
    ConfigError, LegacyDrive, LegacyProvider,
};
use share_one_list::updater::{
    platform_arch_fragment, platform_installer_extensions, update_asset, GitHubAsset,
};

fn account(home: &str, drive: &str, env: CloudEnvironment, name: &str) -> AccountEntry {
    AccountEntry {
        home_account_id: home.to_string(),
        drive_id: drive.to_string(),
        cloud_type: env,
        display_name: name.to_string(),
        account_type: None,
        alias: None,
        icon: None,
    }
}

fn legacy(name: Option<&str>, home: Option<&str>, drive: Option<&str>, cloud: Option<u8>) -> LegacyDrive {
    LegacyDrive {
        display_name: name.map(|s| s.to_string()),
        provider: Some(LegacyProvider {
            home_account_id: home.map(|s| s.to_string()),
            drive_id: drive.map(|s| s.to_string()),
            cloud_type: cloud,
        }),
    }
}

// ── Downloader ──────────────────────────────────────────────────────────

fn dl_config(kind: DownloaderType, rpc: &str, secret: Option<&str>) -> ExternalDownloaderConfig {
    ExternalDownloaderConfig {
        downloader_type: kind,
        rpc_url: rpc.to_string(),
        secret: secret.map(|s| s.to_string()),
        download_url: "https://example.com/a.zip".to_string(),
        file_name: "a.zip".to_string(),
    }
}

#[test]
fn aria2_request_carries_token_only_for_a_non_empty_secret() {
    for kind in [DownloaderType::Aria2, DownloaderType::Motrix] {
        match downloader_action(&dl_config(kind, "http://localhost:6800/jsonrpc", Some("s3"))) {
            DownloaderAction::Rpc { endpoint, request } => {
                assert_eq!(endpoint, "http://localhost:6800/jsonrpc");
                assert_eq!(request.token.as_deref(), Some("token:s3"));
                assert_eq!(request.uris, vec!["https://example.com/a.zip".to_string()]);
                assert_eq!(request.out, "a.zip");
            }
            other => panic!("unexpected {:?}", other),
        }
    }
    match downloader_action(&dl_config(DownloaderType::Aria2, "u", Some(""))) {
        DownloaderAction::Rpc { request, .. } => assert_eq!(request.token, None),
        other => panic!("unexpected {:?}", other),
    }
    match downloader_action(&dl_config(DownloaderType::Aria2, "u", None)) {
        DownloaderAction::Rpc { request, .. } => assert_eq!(request.token, None),
        other => panic!("unexpected {:?}", other),
    }
}

#[test]
fn idm_is_started_with_its_path_or_the_default_program() {
    match downloader_action(&dl_config(DownloaderType::Idm, "", None)) {
        DownloaderAction::Launch { program, args } => {
            assert_eq!(program, "IDMan.exe");
            assert_eq!(args, vec!["/d", "https://example.com/a.zip", "/f", "a.zip", "/n"]);
        }
        other => panic!("unexpected {:?}", other),
    }
    match downloader_action(&dl_config(DownloaderType::Idm, "C:/IDM/IDMan.exe", None)) {
        DownloaderAction::Launch { program, .. } => assert_eq!(program, "C:/IDM/IDMan.exe"),
        other => panic!("unexpected {:?}", other),
    }
}

fn network(r: Result<(), AppError>) -> (String, bool) {
    match r {
        Err(AppError::Network { message, retryable }) => (message, retryable),
        other => panic!("unexpected {:?}", other),
    }
}

#[test]
fn rpc_replies_map_to_outcomes() {
    assert!(rpc_reply_outcome(200, "{}", &RpcReply::Accepted).is_ok());
    assert_eq!(
        network(rpc_reply_outcome(401, "Unauthorized", &RpcReply::Accepted)),
        ("RPC request failed (HTTP 401): Unauthorized".to_string(), false)
    );
    assert_eq!(
        network(rpc_reply_outcome(200, "x", &RpcReply::Unreadable("eof".into()))),
        ("Failed to parse RPC response: eof".to_string(), false)
    );
    assert_eq!(
        network(rpc_reply_outcome(200, "x", &RpcReply::Refused(Some("Unauthorized".into())))),
        ("RPC error: Unauthorized".to_string(), false)
    );
    assert_eq!(
        network(rpc_reply_outcome(204, "", &RpcReply::Refused(None))),
        ("RPC error: Unknown RPC error".to_string(), false)
    );
    match rpc_unreachable("refused") {
        AppError::Network { message, retryable } => {
            assert_eq!(message, "Failed to connect to RPC endpoint: refused");
            assert!(retryable);
        }
        other => panic!("unexpected {:?}", other),
    }
    match launch_failed("IDMan.exe", "not found") {
        AppError::FileSystem { message, path } => {
            assert_eq!(message, "Failed to start IDM: not found");
            assert_eq!(path, "IDMan.exe");
        }
        other => panic!("unexpected {:?}", other),
    }
}

// ── Updater ─────────────────────────────────────────────────────────────

fn asset(name: &str) -> GitHubAsset {
    GitHubAsset {
        name: name.to_string(),
        browser_download_url: format!("https://example.com/{}", name),
    }
}

#[test]
fn platform_fragments_and_installer_extensions() {
    assert_eq!(platform_arch_fragment("windows", "aarch64"), "arm64");
    assert_eq!(platform_arch_fragment("windows", "x86_64"), "x64");
    assert_eq!(platform_arch_fragment("macos", "aarch64"), "aarch64");
    assert_eq!(platform_arch_fragment("linux", "x86_64"), "x64");
    assert_eq!(platform_installer_extensions("windows"), vec![".msi", ".exe"]);
    assert_eq!(platform_installer_extensions("macos"), vec![".dmg", ".app"]);
    assert!(platform_installer_extensions("linux").is_empty());
}

#[test]
fn update_asset_checks_version_then_picks_the_platform_asset() {
    let assets = vec![asset("ShareOneList-v2.0.0-x64.zip"), asset("ShareOneList_2.0.0_x64_en-US.msi")];
    let chosen = update_asset("v2.0.0", "2.0.0", &assets, "x64", &[".msi", ".exe"]).unwrap();
    assert_eq!(chosen.name, "ShareOneList_2.0.0_x64_en-US.msi");
    match update_asset("v2.1.0", "2.0.0", &assets, "x64", &[".msi"]) {
        Err(AppError::Network { message, retryable }) => {
            assert_eq!(message, "Version mismatch: expected 2.0.0, got 2.1.0");
            assert!(retryable);
        }
        other => panic!("unexpected {:?}", other),
    }
    match update_asset("2.0.0", "v2.0.0", &[asset("notes.txt")], "arm64", &[".msi"]) {
        Err(AppError::Network { message, retryable }) => {
            assert_eq!(message, "No matching asset found for this platform");
            assert!(!retryable);
        }
        other => panic!("unexpected {:?}", other),
    }
}

// ── Settings ────────────────────────────────────────────────────────────

#[test]
fn legacy_drives_are_added_completed_or_skipped() {
    let accounts = vec![
        account("h1", "", CloudEnvironment::Global, "Unknown User"),
        account("h2", "d2", CloudEnvironment::China, "Bob"),
    ];
    let drives = vec![
        legacy(Some("Alice"), Some("h1"), Some("d1"), Some(0)),
        legacy(Some("Bob"), None, None, Some(1)),
        legacy(Some("   "), Some("h9"), Some("d9"), Some(0)),
        legacy(Some("Eve"), Some("h5"), Some("d5"), Some(7)),
        LegacyDrive { display_name: Some("NoProvider".into()), provider: None },
        legacy(Some("Carol"), Some("h3"), None, Some(1)),
    ];
    let (out, changed) = merge_legacy_drives(accounts, &drives);
    assert!(changed);
    assert_eq!(out.len(), 3);
    assert_eq!(out[0].display_name, "Alice");
    assert_eq!(out[0].drive_id, "d1");
    assert_eq!(out[1].display_name, "Bob");
    assert_eq!(out[1].drive_id, "d2");
    assert_eq!(out[2].home_account_id, "h3");
    assert_eq!(out[2].drive_id, "");
    assert_eq!(out[2].cloud_type, CloudEnvironment::China);
    assert_eq!(out[2].display_name, "Carol");
    assert_eq!(out[2].account_type, None);
}

#[test]
fn legacy_merge_of_known_drives_changes_nothing() {
    let accounts = vec![account("h1", "d1", CloudEnvironment::Global, "Alice")];
    let drives = vec![legacy(Some("Alice"), Some("h1"), Some("d1"), Some(0))];
    let (out, changed) = merge_legacy_drives(accounts, &drives);
    assert!(!changed);
    assert_eq!(out.len(), 1);
    let (same, changed) = merge_legacy_drives(out, &Vec::new());
    assert!(!changed);
    assert_eq!(same[0].display_name, "Alice");
}

#[test]
fn backup_folder_must_not_be_blank() {
    assert_eq!(backup_dir_setting(Some("  ".into())), None);
    assert_eq!(backup_dir_setting(None), None);
    assert_eq!(backup_dir_setting(Some(" D:/Backup ".into())).as_deref(), Some(" D:/Backup "));
    let mut cfg = AppConfig::default();
    assert_eq!(cfg.segment_download_concurrency, 8);
    assert_eq!(cfg.update_channel, "stable");
    assert_eq!(auto_backup_target(&cfg), None);
    cfg.auto_backup_dir = Some("D:/OneDrive".into());
    assert_eq!(auto_backup_target(&cfg).as_deref(), Some("D:/OneDrive"));
}

fn serialize_message(r: Result<share_one_list::settings::ImportSummary, ConfigError>) -> String {
    match r {
        Err(ConfigError::Serialize(m)) => m,
        other => panic!("unexpected {:?}", other),
    }
}

#[test]
fn import_bundle_checks_kind_then_sections() {
    let accounts = vec![account("h1", "d1", CloudEnvironment::Global, "A")];
    let ok = read_backup_bundle(
        Some("ShareOneList-backup".into()),
        Some(Ok(AppConfig::default())),
        Some(Ok(accounts)),
    )
    .unwrap();
    assert_eq!(ok.accounts_count, 1);
    assert_eq!(ok.accounts[0].home_account_id, "h1");
    assert_eq!(
        serialize_message(read_backup_bundle(Some("other".into()), None, None)),
        "not a ShareOneList backup file"
    );
    assert_eq!(
        serialize_message(read_backup_bundle(None, Some(Ok(AppConfig::default())), Some(Ok(vec![])))),
        "not a ShareOneList backup file"
    );
    assert_eq!(
        serialize_message(read_backup_bundle(Some("ShareOneList-backup".into()), None, Some(Ok(vec![])))),
        "missing config"
    );
    assert_eq!(
        serialize_message(read_backup_bundle(
            Some("ShareOneList-backup".into()),
            Some(Err("bad theme".into())),
            None
        )),
        "invalid config: bad theme"
    );
    assert_eq!(
        serialize_message(read_backup_bundle(
            Some("ShareOneList-backup".into()),
            Some(Ok(AppConfig::default())),
            None
        )),
        "missing accounts"
    );
    assert_eq!(
        serialize_message(read_backup_bundle(
            Some("ShareOneList-backup".into()),
            Some(Ok(AppConfig::default())),
            Some(Err("expected a sequence".into()))
        )),
        "invalid accounts: expected a sequence"
    );
    assert_eq!(ConfigError::Io("denied".into()).to_display_string(), "IO error: denied");
    assert_eq!(
        ConfigError::Serialize("x".into()).to_display_string(),
        "Serialization error: x"
    );
}

// ── Memory and chat history ─────────────────────────────────────────────

fn prev(id: &str, content: &str, count: i64, used: i64) -> PreviousMemory {
    PreviousMemory { id: id.into(), content: content.into(), use_count: count, last_used_at: used }
}

#[test]
fn replace_auto_inherits_stats_for_unchanged_content() {
    let previous = vec![prev("mem_a", "likes DeepSeek", 4, 100), prev("mem_b", "old fact", 1, 50)];
    let contents = vec![
        "  likes DeepSeek ".to_string(),
        "".to_string(),
        "new fact".to_string(),
        "   ".to_string(),
    ];
    let rows = auto_memory_rows(&previous, &contents);
    assert_eq!(rows.len(), 2);
    assert_eq!(rows[0].id.as_deref(), Some("mem_a"));
    assert_eq!(rows[0].content, "likes DeepSeek");
    assert_eq!((rows[0].use_count, rows[0].last_used_at), (4, 100));
    assert_eq!(rows[1].id, None);
    assert_eq!(rows[1].content, "new fact");
    assert_eq!((rows[1].use_count, rows[1].last_used_at), (0, 0));
}

#[test]
fn memory_content_is_trimmed_and_must_not_be_blank() {
    assert_eq!(memory_content("  用户常用 DeepSeek  ").unwrap(), "用户常用 DeepSeek");
    match memory_content(" \n ") {
        Err(AppError::Validation { message, field }) => {
            assert_eq!(message, "memory content must not be empty");
            assert_eq!(field, "content");
        }
        other => panic!("unexpected {:?}", other),
    }
}

#[test]
fn forget_matches_contents_and_counter_rows() {
    let rows = vec![
        ("m1".to_string(), "uses DeepSeek daily".to_string()),
        ("m2".to_string(), "deepseek in lower case".to_string()),
        ("m3".to_string(), "50% done".to_string()),
        ("m4".to_string(), "a_b".to_string()),
    ];
    assert_eq!(memories_to_forget(&rows, "DeepSeek"), vec!["m1".to_string()]);
    assert_eq!(memories_to_forget(&rows, "50%"), vec!["m3".to_string()]);
    assert_eq!(memories_to_forget(&rows, "_"), vec!["m4".to_string()]);
    assert_eq!(memories_to_forget(&rows, "e"), vec!["m1".to_string(), "m2".to_string(), "m3".to_string()]);
    assert_eq!(counter_key("conv_1"), "__counter_conv_1");
    assert_eq!(read_counter(Some("3".into())), 3);
    assert_eq!(read_counter(Some("x".into())), 0);
    assert_eq!(read_counter(None), 0);
}

#[test]
fn extraction_counter_triggers_every_nth_user_message() {
    assert_eq!(next_extraction_step("assistant", true, 3, 0), ExtractionStep::Skip);
    assert_eq!(next_extraction_step("user", false, 3, 0), ExtractionStep::Skip);
    assert_eq!(next_extraction_step("user", true, 3, 0), ExtractionStep::Count(1));
    assert_eq!(next_extraction_step("user", true, 3, 1), ExtractionStep::Count(2));
    assert_eq!(next_extraction_step("user", true, 3, 2), ExtractionStep::Extract);
    assert_eq!(next_extraction_step("user", true, 0, 0), ExtractionStep::Extract);
    assert_eq!(extract_every_setting(0), 1);
    assert_eq!(extract_every_setting(250), 100);
    assert_eq!(extract_every_setting(7), 7);
}

fn llm_config(with_default: bool) -> LlmConfig {
    LlmConfig {
        providers: vec![LlmProviderConfig {
            id: "p1".into(),
            name: "P1".into(),
            preset: LlmProviderPreset::Custom,
            kind: LlmProviderKind::OpenAiCompatible,
            base_url: "https://example.com/v1".into(),
            api_version: None,
            models: vec![LlmModelConfig {
                id: "m1".into(),
                model_id: "gpt-4o".into(),
                display_name: "GPT-4o".into(),
            }],
            has_api_key: true,
        }],
        default_model: if with_default {
            Some(LlmModelRef { provider_id: "p1".into(), model_id: "m1".into() })
        } else {
            None
        },
    }
}

fn validation_of<T: std::fmt::Debug>(r: Result<T, AppError>) -> (String, String) {
    match r {
        Err(AppError::Validation { message, field }) => (message, field),
        other => panic!("unexpected {:?}", other),
    }
}

#[test]
fn extraction_requirements_are_checked_in_order() {
    assert_eq!(
        validation_of(extraction_requirements(false, &llm_config(true), Some("k".into()))),
        ("memory feature is disabled".to_string(), "memory".to_string())
    );
    assert_eq!(
        validation_of(extraction_requirements(true, &llm_config(false), Some("k".into()))),
        ("no default model configured".to_string(), "defaultModel".to_string())
    );
    let mut missing = llm_config(true);
    missing.default_model = Some(LlmModelRef { provider_id: "zz".into(), model_id: "m".into() });
    assert_eq!(
        validation_of(extraction_requirements(true, &missing, Some("k".into()))),
        ("default provider not found".to_string(), "defaultModel".to_string())
    );
    assert_eq!(
        validation_of(extraction_requirements(true, &llm_config(true), None)),
        ("API key is not configured for the default provider".to_string(), "apiKey".to_string())
    );
    let (p, k) = extraction_requirements(true, &llm_config(true), Some("sk".into())).unwrap();
    assert_eq!(p.id, "p1");
    assert_eq!(k, "sk");
}

#[test]
fn auto_title_from_first_user_message() {
    assert_eq!(title_from_message("", "user", "hello").as_deref(), Some("hello"));
    let long: String = "这是一个非常长的问题".repeat(5);
    let t = title_from_message("", "user", &long).unwrap();
    assert_eq!(t.chars().count(), 30);
    assert!(long.starts_with(&t));
    assert_eq!(title_from_message("", "assistant", "hello"), None);
    assert_eq!(title_from_message("Existing", "user", "hello"), None);
    assert_eq!(message_time(0, 99), 99);
    assert_eq!(message_time(12, 99), 12);
}

// ── Catalog queries ─────────────────────────────────────────────────────

fn strings(v: &[&str]) -> Vec<String> {
    v.iter().map(|s| s.to_string()).collect()
}

#[test]
fn short_keywords_use_like_and_scope_binds_each_account() {
    let terms = strings(&["ab"]);
    let scope = vec![("acc1".to_string(), CloudEnvironment::Global), ("acc2".to_string(), CloudEnvironment::China)];
    let (sql, binds) = query_statement(&terms, &Vec::new(), Some(&scope), 20);
    assert!(!sql.contains("node_fts"));
    assert!(sql.contains(" WHERE (n.name LIKE ? OR n.path LIKE ?) AND ((n.account_id = ? AND d.cloud_env = ?) OR (n.account_id = ? AND d.cloud_env = ?))"));
    assert!(sql.ends_with(" ORDER BY n.visit_count DESC, length(n.path) ASC LIMIT 20"));
    assert_eq!(binds, strings(&["%ab%", "%ab%", "acc1", "global", "acc2", "china"]));
}

#[test]
fn long_keywords_use_the_index_and_empty_scope_matches_nothing() {
    let terms = strings(&["report", "q3"]);
    let long = strings(&["report"]);
    let (sql, binds) = query_statement(&terms, &long, Some(&Vec::new()), 5);
    assert!(sql.contains(" JOIN node_fts f ON f.rowid = n.rowid WHERE n.rowid IN (SELECT rowid FROM node_fts WHERE node_fts MATCH ?1) AND 0 = 1 ORDER BY"));
    assert_eq!(
        binds,
        strings(&["(name:\"report\" OR path:\"report\" OR desc:\"report\")"])
    );
    let (unscoped, _) = query_statement(&terms, &long, None, 5);
    assert!(!unscoped.contains("0 = 1"));
}

fn hit(name: &str, path: &str) -> CatalogHit {
    CatalogHit {
        account_id: "a".into(),
        cloud_env: "global".into(),
        drive_id: "d".into(),
        drive_name: "D".into(),
        site_name: String::new(),
        path: path.into(),
        item_id: "i".into(),
        name: name.into(),
        kind: "file".into(),
        desc: String::new(),
        visit_count: 0,
    }
}

#[test]
fn mixed_queries_keep_only_hits_with_every_keyword() {
    let hits = vec![hit("Q3 Report.pdf", "fin/Q3 Report.pdf"), hit("Report.pdf", "fin/Report.pdf")];
    let terms = strings(&["report", "q3"]);
    let long = strings(&["report"]);
    let kept = retain_matching_hits(hits.clone(), &terms, &long);
    assert_eq!(kept.len(), 1);
    assert_eq!(kept[0].name, "Q3 Report.pdf");
    let all = retain_matching_hits(hits, &strings(&["report"]), &long);
    assert_eq!(all.len(), 2);
}

#[test]
fn catalog_command_inputs() {
    assert_eq!(parse_catalog_env("global").unwrap(), CloudEnvironment::Global);
    assert_eq!(parse_catalog_env("china").unwrap(), CloudEnvironment::China);
    match parse_catalog_env("Global") {
        Err(AppError::Validation { message, field }) => {
            assert_eq!(message, "unknown cloud env: Global");
            assert_eq!(field, "cloudEnv");
        }
        other => panic!("unexpected {:?}", other),
    }
    assert!(needs_seed(true, "ready"));
    assert!(needs_seed(false, "failed"));
    assert!(needs_seed(false, "queued"));
    assert!(!needs_seed(false, "ready"));
    assert_eq!(index_key("acc", "drv"), "acc|drv");
    assert_eq!(query_limit(None), 20);
    assert_eq!(query_limit(Some(5)), 5);
    assert!(query_scope(None).unwrap().is_none());
    let scope = query_scope(Some(vec![("a".into(), "global".into()), ("b".into(), "china".into())]))
        .unwrap()
        .unwrap();
    assert_eq!(scope, vec![("a".to_string(), CloudEnvironment::Global), ("b".to_string(), CloudEnvironment::China)]);
    assert!(query_scope(Some(vec![("a".into(), "global".into()), ("b".into(), "moon".into())])).is_err());
}

#[test]
fn provider_checks_before_a_request() {
    let mut p = llm_config(true).providers.remove(0);
    assert_eq!(ping_model(&p).unwrap(), "gpt-4o");
    p.models.clear();
    match ping_model(&p) {
        Err(AppError::Validation { message, field }) => {
            assert_eq!(message, "provider has no model configured");
            assert_eq!(field, "models");
        }
        other => panic!("unexpected {:?}", other),
    }
    match send_failure("https://api.x", true, "timed out") {
        AppError::Network { message, retryable } => {
            assert_eq!(message, "cannot reach https://api.x: timed out");
            assert!(retryable);
        }
        other => panic!("unexpected {:?}", other),
    }
    match send_failure("https://api.x", false, "bad header") {
        AppError::Network { message, retryable } => {
            assert_eq!(message, "bad header");
            assert!(!retryable);
        }
        other => panic!("unexpected {:?}", other),
    }
}
