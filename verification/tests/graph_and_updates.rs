use std::time::Duration;

use share_one_list::errors::AppError;
use share_one_list::graph::{
    calculate_delay, graph_base_url, next_retry_action, AttemptOutcome, RetryAction, RetryConfig,
};
use share_one_list::models::CloudEnvironment;
use share_one_list::updater::{
    check_release_version, is_newer, select_platform_asset_with_preferences, update_from_release,
    GitHubAsset,
};

#[test]
fn test_base_url_global() {
    assert_eq!(graph_base_url(&CloudEnvironment::Global), "https://graph.microsoft.com/v1.0");
}

#[test]
fn test_base_url_china() {
    assert_eq!(
        graph_base_url(&CloudEnvironment::China),
        "https://microsoftgraph.chinacloudapi.cn/v1.0"
    );
}

#[test]
fn test_calculate_delay_attempt_0() {
    let config = RetryConfig::default();
    let delay = Duration::from_millis(calculate_delay(&config, 0));
    assert_eq!(delay, Duration::from_secs(1));
}

#[test]
fn test_calculate_delay_attempt_1() {
    let config = RetryConfig::default();
    let delay = Duration::from_millis(calculate_delay(&config, 1));
    assert_eq!(delay, Duration::from_secs(2));
}

#[test]
fn test_calculate_delay_attempt_2() {
    let config = RetryConfig::default();
    let delay = Duration::from_millis(calculate_delay(&config, 2));
    assert_eq!(delay, Duration::from_secs(4));
}

#[test]
fn test_calculate_delay_capped_at_max() {
    let config = RetryConfig::default();
    let delay = Duration::from_millis(calculate_delay(&config, 10));
    assert_eq!(delay, Duration::from_secs(30));
}

#[test]
fn delay_stays_capped_for_any_attempt() {
    let config = RetryConfig::default();
    assert_eq!(calculate_delay(&config, 4), 16_000);
    assert_eq!(calculate_delay(&config, 5), 30_000);
    assert_eq!(calculate_delay(&config, 32), 30_000);
    assert_eq!(calculate_delay(&config, 40), 30_000);
    assert_eq!(calculate_delay(&config, u32::MAX), 30_000);
    let flat = RetryConfig { backoff_multiplier: 0, ..config };
    assert_eq!(calculate_delay(&flat, 0), 1_000);
    assert_eq!(calculate_delay(&flat, 3), 0);
}

#[test]
fn test_retry_config_defaults() {
    let config = RetryConfig::default();
    assert_eq!(config.max_attempts, 3);
    assert_eq!(Duration::from_millis(config.initial_delay_ms), Duration::from_secs(1));
    assert_eq!(config.backoff_multiplier, 2);
    assert_eq!(Duration::from_millis(config.max_delay_ms), Duration::from_secs(30));
}

#[test]
fn retries_server_errors_then_reports_the_last_one() {
    let config = RetryConfig::default();
    let mut last = None;
    let status = |code: u16| AttemptOutcome::Status { status_code: code, body: format!("e{}", code) };
    assert!(matches!(
        next_retry_action(&config, 0, status(503), &mut last),
        RetryAction::RetryAfter(1000)
    ));
    assert!(matches!(
        next_retry_action(&config, 1, status(500), &mut last),
        RetryAction::RetryAfter(2000)
    ));
    match next_retry_action(&config, 2, status(502), &mut last) {
        RetryAction::Fail(AppError::GraphApi { message, status_code }) => {
            assert_eq!(status_code, 502);
            assert_eq!(message, "e502");
        }
        _ => panic!("expected the last server error"),
    }
}

#[test]
fn client_errors_and_hard_network_failures_are_not_retried() {
    let config = RetryConfig::default();
    let mut last = None;
    match next_retry_action(
        &config,
        0,
        AttemptOutcome::Status { status_code: 404, body: "missing".into() },
        &mut last,
    ) {
        RetryAction::Fail(AppError::GraphApi { status_code, .. }) => assert_eq!(status_code, 404),
        _ => panic!("expected an immediate failure"),
    }
    match next_retry_action(
        &config,
        0,
        AttemptOutcome::NetworkError { message: "dns".into(), retryable: false },
        &mut last,
    ) {
        RetryAction::Fail(AppError::Network { retryable, .. }) => assert!(!retryable),
        _ => panic!("expected an immediate failure"),
    }
    assert!(matches!(
        next_retry_action(&config, 0, AttemptOutcome::Success, &mut last),
        RetryAction::Return
    ));
    match next_retry_action(&config, 2, AttemptOutcome::Status { status_code: 302, body: String::new() }, &mut None) {
        RetryAction::Fail(AppError::Network { message, .. }) => {
            assert_eq!(message, "request failed after all retry attempts")
        }
        _ => panic!("expected the generic failure"),
    }
}

fn asset(name: &str) -> GitHubAsset {
    GitHubAsset {
        name: name.to_string(),
        browser_download_url: format!("https://example.com/{}", name),
    }
}

#[test]
fn test_select_windows_installer_over_zip() {
    let assets = vec![
        asset("ShareOneList-v2.0.0-x64.zip"),
        asset("ShareOneList_2.0.0_arm64_en-US.msi"),
        asset("ShareOneList_2.0.0_x64_en-US.msi"),
    ];
    let selected = select_platform_asset_with_preferences(&assets, "x64", &[".msi", ".exe"])
        .expect("asset should be selected");
    assert_eq!(selected.name, "ShareOneList_2.0.0_x64_en-US.msi");
}

#[test]
fn test_select_macos_dmg_over_zip() {
    let assets = vec![
        asset("ShareOneList_2.0.0_aarch64.dmg"),
        asset("ShareOneList-v2.0.0-macos.zip"),
    ];
    let selected = select_platform_asset_with_preferences(&assets, "aarch64", &[".dmg", ".app"])
        .expect("asset should be selected");
    assert!(selected.name.ends_with(".dmg"));
}

#[test]
fn asset_selection_falls_back_in_order() {
    let assets = vec![asset("App-arm64.MSI"), asset("App-x64-portable.zip")];
    // No x64 installer: any installer wins (names compared lowercased).
    assert_eq!(
        select_platform_asset_with_preferences(&assets, "x64", &[".msi"]).unwrap().name,
        "App-arm64.MSI"
    );
    // No installer at all: the architecture's asset.
    assert_eq!(
        select_platform_asset_with_preferences(&assets, "x64", &[".exe"]).unwrap().name,
        "App-x64-portable.zip"
    );
    assert!(select_platform_asset_with_preferences(&assets, "riscv", &[]).is_none());
}

#[test]
fn test_is_newer() {
    assert!(is_newer("2.1.0", "2.0.0"));
    assert!(is_newer("3.0.0", "2.9.9"));
    assert!(is_newer("2.0.1", "2.0.0"));
    assert!(!is_newer("2.0.0", "2.0.0"));
    assert!(!is_newer("1.9.9", "2.0.0"));
    assert!(is_newer("v2.1.0", "2.0.0"));
    assert!(is_newer("2.1.0", "v2.0.0"));
}

#[test]
fn version_parts_skip_unparseable_pieces() {
    assert!(!is_newer("2.0", "2.0.0"));
    assert!(is_newer("2.x.1", "2.0.0"));
    assert!(is_newer("+3", "2.9"));
    assert!(!is_newer("99999999999999999999.0", "1"));
}

#[test]
fn releases_offer_updates_only_when_newer() {
    let assets = vec![asset("App_x64.msi")];
    assert!(update_from_release("v1.0.0", None, &assets, "1.0.0", "x64", &[".msi"]).is_none());
    let u = update_from_release("v1.1.0", Some("notes".into()), &assets, "1.0.0", "x64", &[".msi"])
        .unwrap();
    assert_eq!(u.version, "1.1.0");
    assert_eq!(u.changelog, "notes");
    assert_eq!(u.download_url, "https://example.com/App_x64.msi");
    assert!(check_release_version("v1.1.0", "1.1.0").is_ok());
    match check_release_version("v1.2.0", "1.1.0") {
        Err(AppError::Network { message, .. }) => {
            assert_eq!(message, "Version mismatch: expected 1.1.0, got 1.2.0")
        }
        _ => panic!("expected a mismatch"),
    }
}
