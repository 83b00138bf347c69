//! Data shared between the drive browser, the transfer engines and the UI.

use vstd::prelude::*;

verus! {

/// The two Microsoft 365 cloud environments.
#[derive(Debug, Clone, Copy, PartialEq, Eq, Structural, Hash)]
pub enum CloudEnvironment {
    Global,
    China,
}

/// Drive item representing a file or folder in OneDrive/SharePoint.
#[derive(Debug, Clone)]
pub struct DriveItem {
    pub id: String,
    pub name: String,
    pub size: Option<u64>,
    /// ISO 8601 timestamp.
    pub last_modified: String,
    pub is_folder: bool,
    pub mime_type: Option<String>,
    pub web_url: Option<String>,
    pub parent_reference: Option<ParentReference>,
    pub download_url: Option<String>,
    pub created_date_time: Option<String>,
}

/// Reference to a parent item/drive.
#[derive(Debug, Clone)]
pub struct ParentReference {
    pub drive_id: String,
    pub id: String,
    pub path: Option<String>,
    pub name: Option<String>,
}

/// A drive (OneDrive personal, OneDrive for Business, or a SharePoint
/// document library).
#[derive(Debug, Clone)]
pub struct Drive {
    pub id: String,
    pub name: String,
    pub drive_type: String,
    pub quota: Option<DriveQuota>,
}

/// Storage quota information for a drive.
#[derive(Debug, Clone, Copy, PartialEq, Eq, Structural)]
pub struct DriveQuota {
    pub total: u64,
    pub used: u64,
    pub remaining: u64,
}

/// A SharePoint site.
#[derive(Debug, Clone)]
pub struct Site {
    pub id: String,
    pub display_name: String,
    pub web_url: String,
}

/// Where a Teams meeting recording was discovered.
#[derive(Debug, Clone, Copy, PartialEq, Eq, Structural)]
pub enum RecordingSource {
    /// Organizer's OneDrive `Recordings` folder.
    OneDrive,
    /// A SharePoint site document library `Recordings` folder.
    SharePoint,
    /// Found via Microsoft Search across content the user can access.
    Search,
}

/// A Teams meeting recording aggregated across the user's drives.
#[derive(Debug, Clone)]
pub struct MeetingRecording {
    /// Drive holding the recording file.
    pub drive_id: String,
    /// The recording file itself.
    pub item: DriveItem,
    pub source_type: RecordingSource,
    /// Display name of the originating site; empty for OneDrive recordings.
    pub source_name: String,
}

/// Theme mode preference.
#[derive(Debug, Clone, Copy, PartialEq, Eq, Structural)]
pub enum ThemeMode {
    Light,
    Dark,
    System,
}

/// Window position and size state.
#[derive(Debug, Clone, Copy, PartialEq, Eq, Structural)]
pub struct WindowState {
    pub x: i32,
    pub y: i32,
    pub width: u32,
    pub height: u32,
    pub is_maximized: bool,
}

/// Application configuration persisted to disk.
#[derive(Debug, Clone)]
pub struct AppConfig {
    pub theme: ThemeMode,
    pub language: String,
    pub window: WindowState,
    pub last_download_path: Option<String>,
    /// How many chunks of one file are downloaded at once (saved files
    /// without the setting read the default, 8).
    pub segment_download_concurrency: u32,
    /// The release channel updates come from (default `stable`).
    pub update_channel: String,
    /// The folder an automatic backup of settings and accounts is written
    /// to after each save; `None` turns the backup off.
    pub auto_backup_dir: Option<String>,
}

/// Whether a Microsoft identity is a consumer (personal MSA) or an
/// organizational (work/school Entra) account.
#[derive(Debug, Clone, Copy, PartialEq, Eq, Structural)]
pub enum AccountCategory {
    Personal,
    Organization,
}

/// A persisted account entry linking a user to a drive and cloud environment.
#[derive(Debug, Clone)]
pub struct AccountEntry {
    pub home_account_id: String,
    pub drive_id: String,
    pub cloud_type: CloudEnvironment,
    pub display_name: String,
    /// Personal vs organizational identity; `None` for legacy entries and 21Vianet.
    pub account_type: Option<AccountCategory>,
    /// The name the user gave the account, if any.
    pub alias: Option<String>,
    /// The icon the user chose for the account, if any.
    pub icon: Option<String>,
}

/// Options for creating a share link.
#[derive(Debug, Clone)]
pub struct ShareOptions {
    /// `"view"` or `"edit"`.
    pub link_type: String,
    /// ISO 8601 date.
    pub expiration: Option<String>,
    pub password: Option<String>,
}

/// Supported external downloader types.
#[derive(Debug, Clone, Copy, PartialEq, Eq, Structural)]
pub enum DownloaderType {
    Aria2,
    Motrix,
    Idm,
}

/// Configuration for pushing a download to an external downloader.
#[derive(Debug, Clone)]
pub struct ExternalDownloaderConfig {
    pub downloader_type: DownloaderType,
    pub rpc_url: String,
    pub secret: Option<String>,
    pub download_url: String,
    pub file_name: String,
}

/// Information about an available application update.
#[derive(Debug, Clone)]
pub struct UpdateInfo {
    pub version: String,
    pub changelog: String,
    pub download_url: String,
}

impl WindowState {
    /// The window state used when none was saved: 1280×720, not maximized,
    /// `x`/`y` of -1 meaning "center on the primary display".
    pub fn default_state() -> (w: WindowState)
        ensures
            w == (WindowState { x: -1i32, y: -1i32, width: 1280, height: 720, is_maximized: false }),
    {
        WindowState { x: -1i32, y: -1i32, width: 1280, height: 720, is_maximized: false }
    }
}

impl Default for WindowState {
    fn default() -> (w: WindowState)
        ensures
            w == (WindowState { x: -1i32, y: -1i32, width: 1280, height: 720, is_maximized: false }),
    {
        WindowState::default_state()
    }
}

impl AppConfig {
    /// The configuration used when none was saved: system theme and
    /// language, default window, no download path, eight chunks at once,
    /// the stable update channel and no automatic backup.
    pub fn default_config() -> (c: AppConfig)
        ensures
            c.theme == ThemeMode::System,
            c.language@ == seq!['s', 'y', 's', 't', 'e', 'm'],
            c.window == WindowState::default_state_spec(),
            c.last_download_path is None,
            c.segment_download_concurrency == 8,
            c.update_channel@ == seq!['s', 't', 'a', 'b', 'l', 'e'],
            c.auto_backup_dir is None,
    {
        let mut language = String::new();
        crate::text::push_char(&mut language, 's');
        crate::text::push_char(&mut language, 'y');
        crate::text::push_char(&mut language, 's');
        crate::text::push_char(&mut language, 't');
        crate::text::push_char(&mut language, 'e');
        crate::text::push_char(&mut language, 'm');
        let mut update_channel = String::new();
        crate::text::push_char(&mut update_channel, 's');
        crate::text::push_char(&mut update_channel, 't');
        crate::text::push_char(&mut update_channel, 'a');
        crate::text::push_char(&mut update_channel, 'b');
        crate::text::push_char(&mut update_channel, 'l');
        crate::text::push_char(&mut update_channel, 'e');
        AppConfig {
            theme: ThemeMode::System,
            language,
            window: WindowState::default_state(),
            last_download_path: None,
            segment_download_concurrency: 8,
            update_channel,
            auto_backup_dir: None,
        }
    }
}

impl WindowState {
    pub open spec fn default_state_spec() -> WindowState {
        WindowState { x: -1i32, y: -1i32, width: 1280, height: 720, is_maximized: false }
    }
}

impl Default for AppConfig {
    fn default() -> (c: AppConfig)
        ensures
            c.theme == ThemeMode::System,
            c.language@ == seq!['s', 'y', 's', 't', 'e', 'm'],
            c.window == WindowState::default_state_spec(),
            c.last_download_path is None,
            c.segment_download_concurrency == 8,
            c.update_channel@ == seq!['s', 't', 'a', 'b', 'l', 'e'],
            c.auto_backup_dir is None,
    {
        AppConfig::default_config()
    }
}

} // verus!
