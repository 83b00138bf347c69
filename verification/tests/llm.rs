use share_one_list::errors::AppError;
use share_one_list::llm_client::{
    auth_headers, build_system_prompt, chat_url, drain_sse_lines, events_for_line, headers_for,
    models_url, parsed_delta, parsed_done, provider_http_error, sorted_unique_ids, sse_payload,
    LlmChatMessage, LlmContextFile, ParsedLine, SsePayload,
};
use share_one_list::llm_config::{
    api_key_store_outcome, mask_key, masked_preview, usable_key, validate_provider, LlmConfig, LlmConfigManager, LlmModelConfig, LlmModelRef,
    LlmProviderConfig, LlmProviderKind, LlmProviderPreset,
};
use share_one_list::memory::{
    clean_memories, extract_json_object, extraction_messages, extraction_user_payload,
    select_memories_for_prompt, EXTRACTION_SYSTEM_PROMPT,
};

fn openai_provider(base: &str) -> LlmProviderConfig {
    LlmProviderConfig {
        id: "p1".into(),
        name: "P1".into(),
        preset: LlmProviderPreset::Custom,
        kind: LlmProviderKind::OpenAiCompatible,
        base_url: base.into(),
        api_version: None,
        models: vec![LlmModelConfig {
            id: "m1".into(),
            model_id: "gpt-4o".into(),
            display_name: "GPT-4o".into(),
        }],
        has_api_key: false,
    }
}

fn provider(id: &str, model_ids: &[&str]) -> LlmProviderConfig {
    LlmProviderConfig {
        id: id.to_string(),
        name: format!("Provider {}", id),
        preset: LlmProviderPreset::Custom,
        kind: LlmProviderKind::OpenAiCompatible,
        base_url: "https://example.com/v1".into(),
        api_version: None,
        models: model_ids
            .iter()
            .map(|m| LlmModelConfig {
                id: format!("{}-{}", id, m),
                model_id: m.to_string(),
                display_name: m.to_string(),
            })
            .collect(),
        has_api_key: false,
    }
}

/// The JSON decoding the app performs on an SSE data payload.
fn parse_sse_line(line: &str) -> Option<ParsedLine> {
    match sse_payload(line)? {
        SsePayload::Done => Some(parsed_done()),
        SsePayload::Json(payload) => {
            let v: serde_json::Value = serde_json::from_str(&payload).ok()?;
            let choices = v.get("choices")?.as_array()?;
            let delta = choices.first().and_then(|c| c.get("delta"));
            let field = |name: &str| {
                delta
                    .and_then(|d| d.get(name))
                    .and_then(|x| x.as_str())
                    .map(|s| s.to_string())
            };
            Some(parsed_delta(field("content"), field("reasoning_content")))
        }
    }
}

#[test]
fn chat_url_openai_compatible_trims_trailing_slash() {
    let provider = openai_provider("https://api.openai.com/v1/");
    assert_eq!(
        chat_url(&provider, "gpt-4o").unwrap(),
        "https://api.openai.com/v1/chat/completions"
    );
}

#[test]
fn chat_url_azure_uses_deployment_path_and_version() {
    let mut provider = openai_provider("https://myres.openai.azure.com");
    provider.kind = LlmProviderKind::AzureOpenAi;
    provider.api_version = Some("2024-10-21".into());
    assert_eq!(
        chat_url(&provider, "my-deployment").unwrap(),
        "https://myres.openai.azure.com/openai/deployments/my-deployment/chat/completions?api-version=2024-10-21"
    );
}

#[test]
fn chat_url_azure_defaults_the_api_version() {
    let mut provider = openai_provider(" https://myres.openai.azure.com// ");
    provider.kind = LlmProviderKind::AzureOpenAi;
    assert_eq!(
        chat_url(&provider, "d").unwrap(),
        "https://myres.openai.azure.com/openai/deployments/d/chat/completions?api-version=2024-10-21"
    );
}

#[test]
fn chat_url_rejects_empty_base_and_model() {
    assert!(chat_url(&openai_provider("   "), "m").is_err());
    assert!(chat_url(&openai_provider("https://x"), "").is_err());
    match chat_url(&openai_provider("///"), "m") {
        Err(AppError::Validation { field, .. }) => assert_eq!(field, "baseUrl"),
        _ => panic!("expected a validation error"),
    }
}

#[test]
fn auth_headers_differ_by_kind() {
    let mut provider = openai_provider("https://x");
    provider.kind = LlmProviderKind::OpenAiCompatible;
    assert!(headers_for(&provider, "sk-1")[0].0 == "Authorization");
    provider.kind = LlmProviderKind::AzureOpenAi;
    assert!(headers_for(&provider, "sk-1")[0].0 == "api-key");
    assert_eq!(auth_headers("sk-1")[0].1, "Bearer sk-1");
}

#[test]
fn models_url_rejects_azure() {
    assert_eq!(
        models_url(&openai_provider("https://api.x/v1/")).unwrap(),
        "https://api.x/v1/models"
    );
    let mut p = openai_provider("https://x");
    p.kind = LlmProviderKind::AzureOpenAi;
    assert!(models_url(&p).is_err());
}

#[test]
fn provider_errors_separate_auth_failures() {
    match provider_http_error(401, "nope") {
        AppError::Network { message, retryable } => {
            assert_eq!(message, "authentication failed (HTTP 401): nope");
            assert!(!retryable);
        }
        _ => panic!("expected a network error"),
    }
    let long = "x".repeat(500);
    match provider_http_error(500, &long) {
        AppError::GraphApi { message, status_code } => {
            assert_eq!(status_code, 500);
            assert_eq!(message, format!("provider returned HTTP 500: {}", "x".repeat(300)));
        }
        _ => panic!("expected a provider error"),
    }
}

#[test]
fn sse_parser_reassembles_delta_sequence() {
    let lines = [
        "data: {\"choices\":[{\"delta\":{\"content\":\"你\"}}]}",
        "",
        "data: {\"choices\":[{\"delta\":{\"content\":\"好\"}}]}",
        "data: {\"choices\":[{\"delta\":{\"role\":\"assistant\"}}]}",
        ": keep-alive comment",
        "data: {\"choices\":[{\"delta\":{\"content\":\"！\"}}]}",
        "data: [DONE]",
    ];

    let mut assembled = String::new();
    let mut saw_done = false;
    for line in lines {
        if let Some(parsed) = parse_sse_line(line) {
            assembled.push_str(parsed.content.as_deref().unwrap_or(""));
            saw_done |= parsed.done;
        }
    }
    assert_eq!(assembled, "你好！");
    assert!(saw_done);

    let full_payload = "data: {\"choices\":[{\"delta\":{\"content\":\"世界\"}}]}\n\n";
    let mut buffer: Vec<u8> = Vec::new();
    let mut split_assembled = String::new();
    for chunk in full_payload.as_bytes().chunks(3) {
        for line in drain_sse_lines(&mut buffer, chunk, false) {
            if let Some(parsed) = parse_sse_line(&line) {
                split_assembled.push_str(parsed.content.as_deref().unwrap_or(""));
            }
        }
    }
    for line in drain_sse_lines(&mut buffer, &[], true) {
        if let Some(parsed) = parse_sse_line(&line) {
            split_assembled.push_str(parsed.content.as_deref().unwrap_or(""));
        }
    }
    assert_eq!(split_assembled, "世界");
    assert!(buffer.is_empty());
}

#[test]
fn sse_parser_ignores_malformed_payloads() {
    assert!(parse_sse_line("data: not json").is_none());
    assert!(parse_sse_line("event: message").is_none());
    assert!(parse_sse_line("data: [DONE]").unwrap().done);
}

#[test]
fn sse_parser_extracts_reasoning_content() {
    let parsed =
        parse_sse_line("data: {\"choices\":[{\"delta\":{\"reasoning_content\":\"让我想想\"}}]}")
            .unwrap();
    assert_eq!(parsed.reasoning.as_deref(), Some("让我想想"));
    assert_eq!(parsed.content, None);

    let parsed = parse_sse_line(
        "data: {\"choices\":[{\"delta\":{\"reasoning_content\":\"然后\",\"content\":\"答\"}}]}",
    )
    .unwrap();
    assert_eq!(parsed.reasoning.as_deref(), Some("然后"));
    assert_eq!(parsed.content.as_deref(), Some("答"));
    let events = events_for_line("r1", &parsed);
    assert_eq!(events.len(), 2);
    assert_eq!(events[0].kind, "delta");
    assert_eq!(events[1].kind, "reasoning");
    assert_eq!(events[1].delta.as_deref(), Some("然后"));
}

#[test]
fn drain_keeps_partial_line_until_flush() {
    let mut buffer = Vec::new();
    let lines = drain_sse_lines(&mut buffer, b"data: a\r\ndata: b", false);
    assert_eq!(lines, vec!["data: a".to_string()]);
    assert_eq!(buffer, b"data: b".to_vec());
    let lines = drain_sse_lines(&mut buffer, b"", true);
    assert_eq!(lines, vec!["data: b".to_string()]);
    assert!(buffer.is_empty());
}

#[test]
fn model_ids_are_sorted_and_unique() {
    let ids = vec!["b".to_string(), "a".to_string(), "b".to_string(), "A".to_string()];
    assert_eq!(sorted_unique_ids(ids), vec!["A", "a", "b"]);
}

#[test]
fn system_prompt_always_requires_cloud_first() {
    let empty = build_system_prompt(&[]);
    assert!(empty.contains("(none)"));
    assert!(empty.contains("Ask the user whether to answer from internet"));
    assert!(empty.contains("Never invent file contents"));

    let files = vec![
        LlmContextFile {
            name: "TLOB report 2025.pdf".into(),
            path: "AE&TS/03. TLOB".into(),
            web_url: "https://fuchschina.sharepoint.cn/...".into(),
            account_name: "work".into(),
            excerpt: None,
        },
        LlmContextFile {
            name: "notes.md".into(),
            path: "R&D".into(),
            web_url: "https://fuchschina.sharepoint.cn/n".into(),
            account_name: "work".into(),
            excerpt: Some("配方 B 配比：A 组分 60%".into()),
        },
    ];
    let with_files = build_system_prompt(&files);
    assert!(with_files.contains("TLOB report 2025.pdf"));
    assert!(with_files.contains("AE&TS/03. TLOB"));
    assert!(with_files.contains("[account: work]"));
    assert!(!with_files.contains("excerpt: \"\""));
    assert!(with_files.contains("excerpt: \"配方 B 配比：A 组分 60%\""));
    assert!(with_files.contains("Ask the user whether to answer from internet"));
}

#[test]
fn system_prompt_lists_root_files_with_a_slash() {
    let files = vec![LlmContextFile {
        name: "a.txt".into(),
        path: String::new(),
        web_url: "u".into(),
        account_name: "me".into(),
        excerpt: None,
    }];
    assert!(build_system_prompt(&files).ends_with("- a.txt — / [account: me] (u)\n"));
}

#[test]
fn preset_defaults_are_consistent() {
    assert_eq!(LlmProviderPreset::AzureOpenAi.default_kind(), LlmProviderKind::AzureOpenAi);
    assert!(LlmProviderPreset::AzureOpenAi.default_api_version().is_some());
    for preset in [
        LlmProviderPreset::OpenAi,
        LlmProviderPreset::Deepseek,
        LlmProviderPreset::Dashscope,
        LlmProviderPreset::Moonshot,
        LlmProviderPreset::Zhipu,
        LlmProviderPreset::Ollama,
    ] {
        assert_eq!(preset.default_kind(), LlmProviderKind::OpenAiCompatible);
        assert!(!preset.default_base_url().is_empty());
    }
    assert_eq!(LlmProviderPreset::Custom.default_base_url(), "");
}

#[test]
fn default_model_validity_follows_providers() {
    let mut config = LlmConfig {
        providers: vec![provider("p1", &["m1"])],
        default_model: Some(LlmModelRef { provider_id: "p1".into(), model_id: "nope".into() }),
    };
    assert!(!config.default_model_is_valid());
    config.default_model = Some(LlmModelRef { provider_id: "ghost".into(), model_id: "m1".into() });
    assert!(!config.default_model_is_valid());
    config.default_model = Some(LlmModelRef { provider_id: "p1".into(), model_id: "m1".into() });
    assert!(config.default_model_is_valid());
    assert!(config.provider("p1").is_some());
    assert!(config.provider("p2").is_none());
}

#[test]
fn deleting_default_provider_is_rejected_and_config_unchanged() {
    let mut config = LlmConfig {
        providers: vec![provider("p1", &["m1"]), provider("p2", &["m2"])],
        default_model: Some(LlmModelRef { provider_id: "p1".into(), model_id: "m1".into() }),
    };
    assert!(config.remove_provider("p1").is_err());
    assert_eq!(config.providers.len(), 2);
    assert!(config.remove_provider("p2").is_ok());
    assert_eq!(config.providers.len(), 1);
}

#[test]
fn upsert_replaces_and_picks_first_default() {
    let mut config = LlmConfig { providers: vec![], default_model: None };
    config.upsert_provider(provider("p1", &["m1", "m2"]));
    assert_eq!(config.default_model.as_ref().unwrap().model_id, "m1");
    config.upsert_provider(provider("p1", &["m3"]));
    assert_eq!(config.providers.len(), 1);
    assert_eq!(config.providers[0].models[0].model_id, "m3");
    assert_eq!(config.default_model.as_ref().unwrap().model_id, "m1");
    assert!(config.set_default_model("p1".into(), "m9".into()).is_err());
    assert!(config.set_default_model("p1".into(), "m3".into()).is_ok());
}

#[test]
fn provider_forms_are_validated() {
    let mut p = provider("p", &["m"]);
    assert!(validate_provider(&p).is_ok());
    p.name = "  ".into();
    assert!(validate_provider(&p).is_err());
    let mut p = provider("p", &[" "]);
    match validate_provider(&p) {
        Err(AppError::Validation { message, .. }) => assert_eq!(message, "model id must not be empty"),
        _ => panic!("expected a validation error"),
    }
    p.models.clear();
    assert!(validate_provider(&p).is_err());
}

#[test]
fn api_key_operations_are_noop_safe_without_keyring_backend() {
    let mgr = LlmConfigManager::new("/tmp/share-one-list-test");
    let key = mgr.load_api_key("nonexistent-provider");
    assert!(key.is_none());
    mgr.delete_api_key("nonexistent-provider");
    assert!(mgr.masked_api_key("nonexistent-provider").is_none());
    assert_eq!(mgr.api_key_user("p1"), "llm_api_key_p1");
}

#[test]
fn masked_keys_show_the_last_four_characters() {
    assert_eq!(mask_key("sk-test1234abcd"), "sk-…abcd");
    assert_eq!(mask_key("sk-abcdef"), "sk-…cdef");
    assert_eq!(mask_key("abcdefg"), "…defg");
    assert_eq!(mask_key("ab"), "…ab");
}

#[test]
fn selection_respects_item_and_char_budgets() {
    let mut state: u64 = 42;
    let mut contents = Vec::new();
    for _ in 0..50 {
        state = state
            .wrapping_mul(6364136223846793005)
            .wrapping_add(1442695040888963407);
        let len = 5 + (state >> 33) as usize % 200;
        contents.push("test-char".repeat(len));
    }
    for max_items in [1usize, 3, 20] {
        for max_chars in [50usize, 500, 2000] {
            let selected = select_memories_for_prompt(contents.clone(), max_items, max_chars);
            assert!(selected.len() <= max_items);
            let total: usize = selected.iter().map(|s| s.chars().count() + 3).sum();
            assert!(total <= max_chars, "chars {total} > {max_chars}");
        }
    }
    let selected = select_memories_for_prompt(vec!["x".repeat(3000)], 20, 2000);
    assert_eq!(selected.len(), 1);
    assert_eq!(selected[0].chars().count(), 1997);
}

/// The decoding the app performs on the model's extraction output.
fn parse_extraction(raw: &str) -> Option<Vec<String>> {
    let candidate = extract_json_object(raw)?;
    let v: serde_json::Value = serde_json::from_str(&candidate).ok()?;
    let memories = match v.get("memories") {
        Some(m) => m
            .as_array()?
            .iter()
            .map(|x| x.as_str().map(|s| s.to_string()))
            .collect::<Option<Vec<String>>>()?,
        None => Vec::new(),
    };
    clean_memories(memories)
}

#[test]
fn parser_accepts_fences_and_noise() {
    assert_eq!(parse_extraction(r#"{"memories": ["A", "B"]}"#).unwrap(), vec!["A", "B"]);
    assert_eq!(
        parse_extraction("```json\n{\"memories\": [\"你好\"]}\n```").unwrap(),
        vec!["你好"]
    );
    assert_eq!(
        parse_extraction("Here is the result:\n{\"memories\": [\"X\"]}\nDone.").unwrap(),
        vec!["X"]
    );
    assert_eq!(
        parse_extraction(r#"{"memories": ["uses {braces} often"]}"#).unwrap(),
        vec!["uses {braces} often"]
    );
}

#[test]
fn parser_rejects_invalid_and_empty() {
    assert!(parse_extraction("not json at all").is_none());
    assert!(parse_extraction("{\"memories\": []}").is_none(), "empty list is a no-op signal");
    assert!(parse_extraction("{\"other\": 1}").is_none());
    assert!(parse_extraction("").is_none());
}

#[test]
fn json_object_scan_respects_escapes() {
    assert_eq!(
        extract_json_object(r#"x {"a": "\"}"} y"#).as_deref(),
        Some(r#"{"a": "\"}"}"#)
    );
    assert_eq!(extract_json_object("{ unclosed"), None);
    assert_eq!(
        clean_memories(vec!["  a ".into(), "   ".into()]),
        Some(vec!["a".to_string()])
    );
}

#[test]
fn user_payload_includes_existing_and_conversation() {
    let payload = extraction_user_payload(
        &["已知记忆".into()],
        &[LlmChatMessage {
            role: "user".into(),
            content: "问题".into(),
        }],
    );
    assert!(payload.contains("已知记忆"));
    assert!(payload.contains("问题"));
    assert!(payload.contains("existingMemories"));
}

#[test]
fn user_payload_is_json_with_escaped_strings() {
    let payload = extraction_user_payload(
        &["a \"quoted\" fact".into(), "b".into()],
        &[
            LlmChatMessage { role: "user".into(), content: "line1\nline2".into() },
            LlmChatMessage { role: "assistant".into(), content: "ok".into() },
        ],
    );
    assert_eq!(
        payload,
        "{\"existingMemories\":[\"a \\\"quoted\\\" fact\",\"b\"],\"conversation\":[{\"role\":\"user\",\"content\":\"line1\\nline2\"},{\"role\":\"assistant\",\"content\":\"ok\"}]}"
    );
    let parsed: serde_json::Value = serde_json::from_str(&payload).unwrap();
    assert_eq!(parsed["conversation"][0]["content"], "line1\nline2");
    let msgs = extraction_messages(payload.clone());
    assert_eq!(msgs[0].role, "system");
    assert_eq!(msgs[0].content, EXTRACTION_SYSTEM_PROMPT);
    assert_eq!(msgs[1].content, payload);
    assert_eq!(extraction_user_payload(&[], &[]), "{\"existingMemories\":[],\"conversation\":[]}");
}

#[test]
fn sse_lines_are_the_same_however_the_stream_is_chunked() {
    let payload = "data: {\"a\":1}\n\ndata: [DONE]\npartial";
    let mut whole_buf: Vec<u8> = Vec::new();
    let whole = drain_sse_lines(&mut whole_buf, payload.as_bytes(), true);
    for size in [1usize, 2, 3, 7] {
        let mut buf: Vec<u8> = Vec::new();
        let mut lines: Vec<String> = Vec::new();
        for chunk in payload.as_bytes().chunks(size) {
            lines.extend(drain_sse_lines(&mut buf, chunk, false));
        }
        lines.extend(drain_sse_lines(&mut buf, &[], true));
        assert_eq!(lines, whole);
        assert!(buf.is_empty());
    }
    assert_eq!(whole, vec!["data: {\"a\":1}", "", "data: [DONE]", "partial"]);
}

#[test]
fn api_key_store_outcome_words_each_answer() {
    assert!(api_key_store_outcome(Some(Ok(()))).is_ok());
    match api_key_store_outcome(None) {
        Err(AppError::Config { message }) => assert_eq!(message, "keyring unavailable"),
        other => panic!("unexpected {:?}", other),
    }
    match api_key_store_outcome(Some(Err("denied".to_string()))) {
        Err(AppError::Config { message }) => assert_eq!(message, "failed to store API key: denied"),
        other => panic!("unexpected {:?}", other),
    }
}

#[test]
fn usable_key_drops_empty_passwords() {
    assert_eq!(usable_key(None), None);
    assert_eq!(usable_key(Some(String::new())), None);
    assert_eq!(usable_key(Some("sk-1".to_string())).as_deref(), Some("sk-1"));
}

#[test]
fn masked_preview_keeps_last_four() {
    assert_eq!(masked_preview(None), None);
    assert_eq!(masked_preview(Some("sk-abcdef".to_string())).as_deref(), Some("sk-\u{2026}cdef"));
    assert_eq!(masked_preview(Some("abc".to_string())).as_deref(), Some("\u{2026}abc"));
}

#[test]
fn sse_delta_line_reassembles_from_three_byte_pieces() {
    let payload = "data: {\"choices\":[{\"delta\":{\"content\":\"世界\"}}]}\n";
    let mut whole_buf: Vec<u8> = Vec::new();
    let whole = drain_sse_lines(&mut whole_buf, payload.as_bytes(), true);
    let mut buf: Vec<u8> = Vec::new();
    let mut lines: Vec<String> = Vec::new();
    for piece in payload.as_bytes().chunks(3) {
        lines.extend(drain_sse_lines(&mut buf, piece, false));
    }
    lines.extend(drain_sse_lines(&mut buf, &[], true));
    assert_eq!(lines, whole);
    assert!(buf.is_empty());
    assert!(lines[0].contains("世界"));
}

#[test]
fn extraction_payload_escapes_strings_as_json() {
    let payload = extraction_user_payload(&["say \"hi\"\\ \n\t\u{1}é".to_string()], &[]);
    assert_eq!(
        payload,
        "{\"existingMemories\":[\"say \\\"hi\\\"\\\\ \\n\\t\\u0001é\"],\"conversation\":[]}"
    );
}
