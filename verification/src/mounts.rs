//! WebDAV mount points: their persisted configuration, the gateway
//! credential, and the bookkeeping of the mount list.

use vstd::prelude::*;
use crate::models::CloudEnvironment;
use crate::text::{chars_of, extend_chars, extend_str, push_char, string_of};
use crate::transcript::{decimal, decimal_chars};

verus! {

/// User name presented to the OS WebDAV client. A single credential pair
/// guards the whole gateway: Windows allows one credential set per server.
pub const GATEWAY_USERNAME: &'static str = "shareonelist";

/// File the mounts are persisted in, next to the other configuration.
pub const MOUNTS_FILE_NAME: &'static str = "webdav-mounts.json";

/// Port the gateway listens on unless configured otherwise.
pub const DEFAULT_PORT: u16 = 3980;

/// One mountable cloud location bound to a single account.
#[derive(Debug, Clone)]
pub struct MountEntry {
    /// Short random id used in the gateway URL path.
    pub mount_id: String,
    pub cloud_env: CloudEnvironment,
    pub home_account_id: String,
    pub drive_id: String,
    /// Graph item id of the exposed subtree; empty means the drive root.
    pub root_item_id: String,
    pub label: String,
    /// Preferred Windows drive letter; `None` picks one at mount time.
    pub drive_letter: Option<String>,
}

/// Persisted gateway configuration: the mounts and the gateway password.
#[derive(Debug, Clone)]
pub struct MountConfig {
    pub mounts: Vec<MountEntry>,
    /// Loopback-only secret guarding the gateway.
    pub gateway_password: String,
    /// Preferred port; the listener walks upward from here when busy.
    pub port: u16,
}

/// Result of mounting: `X:` on Windows, the webdav URL on macOS.
#[derive(Debug, Clone)]
pub struct MountResult {
    pub mount_point: String,
}

/// Status of one mount for the settings UI.
#[derive(Debug, Clone)]
pub struct MountStatus {
    pub entry: MountEntry,
    /// Full WebDAV URL of the mount; empty while the gateway is stopped.
    pub url: String,
    /// Best-effort OS-level mount detection.
    pub mounted: bool,
}

/// Status of the gateway for the settings UI.
#[derive(Debug, Clone)]
pub struct WebDavStatus {
    pub running: bool,
    pub port: u16,
    pub base_url: String,
    pub mounts: Vec<MountStatus>,
}

/// Credentials and URL for third-party WebDAV clients.
#[derive(Debug, Clone)]
pub struct MountConnectionInfo {
    pub url: String,
    pub username: String,
    pub password: String,
}

/// Lower-case hexadecimal digit of `d` (`d < 16`).
pub open spec fn hex_lower(d: u8) -> char {
    if d < 10 {
        ((d + 0x30) as u8) as char
    } else {
        ((d + 0x57) as u8) as char
    }
}

/// Two lower-case hex digits per byte.
pub open spec fn hex_text(bytes: Seq<u8>) -> Seq<char>
    decreases bytes.len(),
{
    if bytes.len() == 0 {
        Seq::empty()
    } else {
        hex_text(bytes.drop_last()) + seq![hex_lower(bytes.last() / 16), hex_lower(bytes.last() % 16)]
    }
}

pub open spec fn is_hex_lower(c: char) -> bool {
    ('0' <= c <= '9') || ('a' <= c <= 'f')
}

proof fn lemma_hex_text_shape(bytes: Seq<u8>)
    ensures
        hex_text(bytes).len() == 2 * bytes.len(),
        forall|i: int| 0 <= i < hex_text(bytes).len() ==> is_hex_lower(#[trigger] hex_text(bytes)[i]),
    decreases bytes.len(),
{
    if bytes.len() > 0 {
        lemma_hex_text_shape(bytes.drop_last());
        let b = bytes.last();
        assert(b / 16 < 16 && b % 16 < 16);
        let prev = hex_text(bytes.drop_last());
        let t = hex_text(bytes);
        assert forall|i: int| 0 <= i < t.len() implies is_hex_lower(#[trigger] t[i]) by {
            if i < prev.len() {
                assert(t[i] == prev[i]);
            }
        }
    }
}

fn hex_digit_lower(d: u8) -> (c: char)
    requires
        d < 16,
    ensures
        c == hex_lower(d),
{
    if d < 10 {
        (d + 0x30) as char
    } else {
        (d + 0x57) as char
    }
}

/// Lower-case hex text of bytes.
pub fn hex_encode(bytes: &[u8]) -> (s: String)
    ensures
        s@ == hex_text(bytes@),
{
    let mut out: Vec<char> = Vec::new();
    let mut i: usize = 0;
    while i < bytes.len()
        invariant
            i <= bytes.len(),
            out@ == hex_text(bytes@.take(i as int)),
        decreases bytes.len() - i,
    {
        let b = bytes[i];
        out.push(hex_digit_lower(b / 16));
        out.push(hex_digit_lower(b % 16));
        proof {
            let t = bytes@.take(i + 1);
            assert(t.drop_last() =~= bytes@.take(i as int));
            assert(out@ =~= hex_text(t));
        }
        i = i + 1;
    }
    proof {
        assert(bytes@.take(bytes@.len() as int) =~= bytes@);
    }
    string_of(out.as_slice())
}

/// `n` random bytes from the thread-local generator of `rand`
/// (`Rng::fill`). Only the length is claimed.
#[verifier::external_body]
fn random_bytes(n: usize) -> (v: Vec<u8>)
    ensures
        v@.len() == n,
{
    let mut v = vec![0u8; n];
    rand::Rng::fill(&mut rand::thread_rng(), &mut v[..]);
    v
}

/// A fresh 32-byte random gateway password, hex encoded (64 characters).
pub fn generate_password() -> (p: String)
    ensures
        p@.len() == 64,
        forall|i: int| 0 <= i < p@.len() ==> is_hex_lower(#[trigger] p@[i]),
{
    let bytes = random_bytes(32);
    proof {
        lemma_hex_text_shape(bytes@);
    }
    hex_encode(bytes.as_slice())
}

/// A fresh random mount id (URL-safe, 12 hex characters).
pub fn generate_mount_id() -> (id: String)
    ensures
        id@.len() == 12,
        forall|i: int| 0 <= i < id@.len() ==> is_hex_lower(#[trigger] id@[i]),
{
    let bytes = random_bytes(6);
    proof {
        lemma_hex_text_shape(bytes@);
    }
    hex_encode(bytes.as_slice())
}

impl MountConfig {
    /// A fresh configuration: no mounts, a new random password, the
    /// default port.
    pub fn new_default() -> (c: MountConfig)
        ensures
            c.mounts@.len() == 0,
            c.port == 3980,
            c.gateway_password@.len() == 64,
            forall|i: int|
                0 <= i < c.gateway_password@.len() ==> is_hex_lower(#[trigger] c.gateway_password@[i]),
    {
        MountConfig { mounts: Vec::new(), gateway_password: generate_password(), port: DEFAULT_PORT }
    }
}

impl Default for MountConfig {
    fn default() -> (c: MountConfig)
        ensures
            c.mounts@.len() == 0,
            c.port == 3980,
            c.gateway_password@.len() == 64,
    {
        MountConfig::new_default()
    }
}

/// Where the mount configuration lives: `webdav-mounts.json` in a
/// directory.
#[derive(Debug, Clone)]
pub struct MountStore {
    pub dir: String,
    pub file_name: String,
}

impl MountStore {
    /// The store for the configuration directory `base_path`.
    pub fn new(base_path: &str) -> (s: MountStore)
        ensures
            s.dir@ == base_path@,
            s.file_name@ == MOUNTS_FILE_NAME@,
    {
        MountStore { dir: base_path.to_owned(), file_name: MOUNTS_FILE_NAME.to_owned() }
    }

    /// The file's path (the directory joined with the file name).
    pub fn path(&self) -> (r: String)
        ensures
            r@ == crate::download::joined_path(self.dir@, self.file_name@),
    {
        crate::download::join_path(self.dir.as_str(), self.file_name.as_str())
    }
}

/// The configuration read from disk, or a fresh default where the file is
/// missing or holds no valid configuration (`None`).
pub fn config_or_default(loaded: Option<MountConfig>) -> (c: MountConfig)
    ensures
        match loaded {
            Some(l) => c == l,
            None => c.mounts@.len() == 0 && c.port == 3980 && c.gateway_password@.len() == 64,
        },
{
    match loaded {
        Some(l) => l,
        None => MountConfig::new_default(),
    }
}

// ── The mount list ──────────────────────────────────────────────────────

/// Two entries expose the same location of the same account.
pub open spec fn same_location(a: MountEntry, b: MountEntry) -> bool {
    a.cloud_env == b.cloud_env && a.home_account_id@ == b.home_account_id@ && a.drive_id@
        == b.drive_id@ && a.root_item_id@ == b.root_item_id@
}

fn same_location_exec(a: &MountEntry, b: &MountEntry) -> (r: bool)
    ensures
        r == same_location(*a, *b),
{
    a.cloud_env == b.cloud_env && a.home_account_id == b.home_account_id && a.drive_id
        == b.drive_id && a.root_item_id == b.root_item_id
}

fn find_mount(mounts: &Vec<MountEntry>, mount_id: &str) -> (r: Option<usize>)
    ensures
        match r {
            Some(i) => i < mounts@.len() && mounts@[i as int].mount_id@ == mount_id@ && forall|
                j: int,
            |
                0 <= j < i ==> #[trigger] mounts@[j].mount_id@ != mount_id@,
            None => forall|j: int|
                0 <= j < mounts@.len() ==> #[trigger] mounts@[j].mount_id@ != mount_id@,
        },
{
    let id = mount_id.to_owned();
    let mut i: usize = 0;
    while i < mounts.len()
        invariant
            i <= mounts@.len(),
            id@ == mount_id@,
            forall|j: int| 0 <= j < i ==> #[trigger] mounts@[j].mount_id@ != mount_id@,
        decreases mounts.len() - i,
    {
        if mounts[i].mount_id == id {
            return Some(i);
        }
        i = i + 1;
    }
    None
}

/// `http://127.0.0.1:{port}`.
pub open spec fn gateway_base_url(port: u16) -> Seq<char> {
    "http://127.0.0.1:"@ + decimal(port as nat)
}

/// `http://127.0.0.1:{port}/m/{mount_id}`.
pub open spec fn mount_url_of(port: u16, mount_id: Seq<char>) -> Seq<char> {
    gateway_base_url(port) + "/m/"@ + mount_id
}

/// The gateway's base URL (see `gateway_base_url`).
pub fn base_url(port: u16) -> (u: String)
    ensures
        u@ == gateway_base_url(port),
{
    let mut out: Vec<char> = Vec::new();
    extend_str(&mut out, "http://127.0.0.1:");
    let d = decimal_chars(port as u64);
    extend_chars(&mut out, d.as_slice());
    string_of(out.as_slice())
}

/// The WebDAV URL of a mount (see `mount_url_of`).
pub fn mount_url(port: u16, mount_id: &str) -> (u: String)
    ensures
        u@ == mount_url_of(port, mount_id@),
{
    let mut out: Vec<char> = Vec::new();
    extend_str(&mut out, "http://127.0.0.1:");
    let d = decimal_chars(port as u64);
    extend_chars(&mut out, d.as_slice());
    extend_str(&mut out, "/m/");
    extend_str(&mut out, mount_id);
    string_of(out.as_slice())
}

impl MountConfig {
    /// Adds a mount, refusing one that exposes a location already mounted
    /// (`duplicate_mount`).
    pub fn add_mount(&mut self, entry: MountEntry) -> (r: Result<(), String>)
        ensures
            (exists|i: int| 0 <= i < old(self).mounts@.len() && same_location(
                #[trigger] old(self).mounts@[i],
                entry,
            )) <==> r is Err,
            r is Err ==> r->Err_0@ == "duplicate_mount"@ && *final(self) == *old(self),
            r is Ok ==> final(self).mounts@ == old(self).mounts@.push(entry),
            r is Ok ==> final(self).gateway_password == old(self).gateway_password,
            r is Ok ==> final(self).port == old(self).port,
    {
        let mut i: usize = 0;
        while i < self.mounts.len()
            invariant
                i <= self.mounts@.len(),
                forall|j: int| 0 <= j < i ==> !same_location(#[trigger] self.mounts@[j], entry),
            decreases self.mounts.len() - i,
        {
            if same_location_exec(&self.mounts[i], &entry) {
                return Err("duplicate_mount".to_owned());
            }
            i = i + 1;
        }
        self.mounts.push(entry);
        Ok(())
    }

    /// Removes every mount with the id; `mount_not_found` when none has it.
    pub fn remove_mount(&mut self, mount_id: &str) -> (r: Result<(), String>)
        ensures
            final(self).mounts@ == old(self).mounts@.filter(
                |m: MountEntry| m.mount_id@ != mount_id@,
            ),
            final(self).gateway_password == old(self).gateway_password,
            final(self).port == old(self).port,
            r is Ok <==> exists|i: int|
                0 <= i < old(self).mounts@.len() && #[trigger] old(self).mounts@[i].mount_id@
                    == mount_id@,
            r is Err ==> r->Err_0@ == "mount_not_found"@,
    {
        let ghost orig = self.mounts@;
        assert(orig.len() == self.mounts.len());
        let id = mount_id.to_owned();
        let mut kept: Vec<MountEntry> = Vec::new();
        let mut removed = false;
        let mut src: Vec<MountEntry> = Vec::new();
        std::mem::swap(&mut src, &mut self.mounts);
        let mut i: usize = 0;
        let ghost f = |m: MountEntry| m.mount_id@ != mount_id@;
        while src.len() > 0
            invariant
                id@ == mount_id@,
                f == (|m: MountEntry| m.mount_id@ != mount_id@),
                i + src@.len() == orig.len(),
                orig.len() <= usize::MAX,
                src@ == orig.skip(i as int),
                kept@ == orig.take(i as int).filter(f),
                removed == exists|j: int| 0 <= j < i && #[trigger] orig[j].mount_id@ == mount_id@,
            decreases src.len(),
        {
            let m = src.remove(0);
            proof {
                assert(orig[i as int] == m);
                assert(orig.take(i + 1).drop_last() =~= orig.take(i as int));
                reveal(Seq::filter);
                assert(orig.take(i + 1).last() == m);
                assert(src@ =~= orig.skip(i + 1));
            }
            if m.mount_id == id {
                removed = true;
            } else {
                kept.push(m);
            }
            i = i + 1;
        }
        proof {
            assert(orig.take(i as int) =~= orig);
        }
        self.mounts = kept;
        if removed {
            Ok(())
        } else {
            Err("mount_not_found".to_owned())
        }
    }

    /// Sets the preferred drive letter of the first mount with the id;
    /// `mount_not_found` when none has it.
    pub fn set_drive_letter(&mut self, mount_id: &str, letter: Option<String>) -> (r: Result<
        (),
        String,
    >)
        ensures
            match r {
                Ok(()) => exists|i: int|
                    0 <= i < old(self).mounts@.len() && old(self).mounts@[i].mount_id@ == mount_id@
                        && (forall|j: int|
                        0 <= j < i ==> #[trigger] old(self).mounts@[j].mount_id@ != mount_id@)
                        && final(self).mounts@ == old(self).mounts@.update(
                        i,
                        MountEntry { drive_letter: letter, ..old(self).mounts@[i] },
                    ),
                Err(e) => e@ == "mount_not_found"@ && *final(self) == *old(self) && forall|j: int|
                    0 <= j < old(self).mounts@.len() ==> #[trigger] old(self).mounts@[j].mount_id@
                        != mount_id@,
            },
            final(self).gateway_password == old(self).gateway_password,
            final(self).port == old(self).port,
    {
        match find_mount(&self.mounts, mount_id) {
            Some(i) => {
                let mut entry = self.mounts.remove(i);
                entry.drive_letter = letter;
                self.mounts.insert(i, entry);
                proof {
                    assert(self.mounts@ =~= old(self).mounts@.update(
                        i as int,
                        MountEntry { drive_letter: letter, ..old(self).mounts@[i as int] },
                    ));
                }
                Ok(())
            },
            None => Err("mount_not_found".to_owned()),
        }
    }

    /// The gateway status: per mount its URL (empty while stopped) and
    /// whether the OS shows it mounted (`mounted[i]`, never while stopped).
    pub fn status(&self, running: bool, port: u16, mounted: &Vec<bool>) -> (s: WebDavStatus)
        requires
            mounted@.len() == self.mounts@.len(),
        ensures
            s.running == running,
            s.port == port,
            s.base_url@ == if running {
                gateway_base_url(port)
            } else {
                Seq::empty()
            },
            s.mounts@.len() == self.mounts@.len(),
            forall|i: int|
                0 <= i < s.mounts@.len() ==> {
                    &&& (#[trigger] s.mounts@[i]).entry.mount_id@ == self.mounts@[i].mount_id@
                    &&& s.mounts@[i].url@ == if running {
                        mount_url_of(port, self.mounts@[i].mount_id@)
                    } else {
                        Seq::empty()
                    }
                    &&& s.mounts@[i].mounted == (running && mounted@[i])
                },
    {
        let mut out: Vec<MountStatus> = Vec::new();
        let mut i: usize = 0;
        while i < self.mounts.len()
            invariant
                i <= self.mounts@.len(),
                mounted@.len() == self.mounts@.len(),
                out@.len() == i,
                forall|q: int|
                    0 <= q < i ==> {
                        &&& (#[trigger] out@[q]).entry.mount_id@ == self.mounts@[q].mount_id@
                        &&& out@[q].url@ == if running {
                            mount_url_of(port, self.mounts@[q].mount_id@)
                        } else {
                            Seq::empty()
                        }
                        &&& out@[q].mounted == (running && mounted@[q])
                    },
            decreases self.mounts.len() - i,
        {
            let entry = copy_entry(&self.mounts[i]);
            let url = if running {
                mount_url(port, self.mounts[i].mount_id.as_str())
            } else {
                String::new()
            };
            out.push(MountStatus { entry, url, mounted: running && mounted[i] });
            i = i + 1;
        }
        let base = if running {
            base_url(port)
        } else {
            String::new()
        };
        WebDavStatus { running, port, base_url: base, mounts: out }
    }

    /// One mount and the gateway credentials for it; `server_not_running`
    /// while stopped, `mount_not_found` for an unknown id.
    pub fn connection_info(&self, running: bool, port: u16, mount_id: &str) -> (r: Result<
        (MountEntry, MountConnectionInfo, u16),
        String,
    >)
        ensures
            !running ==> r is Err && r->Err_0@ == "server_not_running"@,
            running ==> match r {
                Ok((entry, info, p)) => exists|i: int|
                    0 <= i < self.mounts@.len() && #[trigger] self.mounts@[i].mount_id@ == mount_id@
                        && entry == self.mounts@[i] && info.url@ == mount_url_of(port, mount_id@)
                        && info.username@ == GATEWAY_USERNAME@ && info.password@
                        == self.gateway_password@ && p == port,
                Err(e) => e@ == "mount_not_found"@ && forall|j: int|
                    0 <= j < self.mounts@.len() ==> #[trigger] self.mounts@[j].mount_id@ != mount_id@,
            },
    {
        if !running {
            return Err("server_not_running".to_owned());
        }
        match find_mount(&self.mounts, mount_id) {
            Some(i) => {
                let entry = copy_entry(&self.mounts[i]);
                let info = MountConnectionInfo {
                    url: mount_url(port, mount_id),
                    username: GATEWAY_USERNAME.to_owned(),
                    password: self.gateway_password.clone(),
                };
                Ok((entry, info, port))
            },
            None => Err("mount_not_found".to_owned()),
        }
    }
}

fn copy_opt(o: &Option<String>) -> (r: Option<String>)
    ensures
        r == *o,
{
    match o {
        Some(s) => Some(s.clone()),
        None => None,
    }
}

/// A copy of an entry equal to it.
pub fn copy_entry(e: &MountEntry) -> (r: MountEntry)
    ensures
        r == *e,
{
    MountEntry {
        mount_id: e.mount_id.clone(),
        cloud_env: e.cloud_env,
        home_account_id: e.home_account_id.clone(),
        drive_id: e.drive_id.clone(),
        root_item_id: e.root_item_id.clone(),
        label: e.label.clone(),
        drive_letter: copy_opt(&e.drive_letter),
    }
}

// ── Creating a mount ────────────────────────────────────────────────────

/// Parses the cloud a mount is for (`"global"` or `"china"`, any case); the
/// error names the `cloudEnv` field.
pub fn parse_mount_env(cloud_env: &str) -> (r: Result<CloudEnvironment, crate::errors::AppError>)
    ensures
        match r {
            Ok(env) => crate::auth::parsed_env(cloud_env@) == Some(env),
            Err(e) => {
                &&& crate::auth::parsed_env(cloud_env@) is None
                &&& e matches crate::errors::AppError::Validation { message, field }
                &&& message@ == "Invalid cloud environment '"@ + cloud_env@ + "'."@
                &&& field@ == "cloudEnv"@
            },
        },
{
    match crate::auth::parse_cloud_env(cloud_env) {
        Ok(env) => Ok(env),
        Err(_) => {
            let mut msg = chars_of("Invalid cloud environment '");
            extend_str(&mut msg, cloud_env);
            extend_str(&mut msg, "'.");
            Err(
                crate::errors::AppError::Validation {
                    message: string_of(msg.as_slice()),
                    field: string_of(chars_of("cloudEnv").as_slice()),
                },
            )
        },
    }
}

/// The path segments of a mount root to resolve; `None` for a blank path,
/// which mounts the drive root.
pub fn mount_root_segments(root_path: &str) -> (r: Option<Vec<String>>)
    ensures
        crate::text::trim(root_path@).len() == 0 ==> r is None,
        crate::text::trim(root_path@).len() > 0 ==> (r matches Some(v) && crate::text::string_texts(v@)
            == crate::share_links::path_segments(root_path@)),
{
    let t = crate::text::trim_chars(chars_of(root_path).as_slice());
    if t.len() == 0 {
        return None;
    }
    let parts = crate::text::split_chars(chars_of(root_path).as_slice(), '/');
    let segs = crate::transcript::non_empty_parts(parts);
    let ghost sv = segs.deep_view();
    let mut out: Vec<String> = Vec::new();
    let mut i: usize = 0;
    while i < segs.len()
        invariant
            i <= segs.len(),
            sv == segs.deep_view(),
            crate::text::string_texts(out@) == sv.take(i as int),
        decreases segs.len() - i,
    {
        let s = string_of(segs[i].as_slice());
        let ghost before = crate::text::string_texts(out@);
        out.push(s);
        proof {
            assert(sv[i as int] == segs@[i as int]@);
            assert(crate::text::string_texts(out@) =~= before.push(s@));
            assert(sv.take(i + 1) =~= sv.take(i as int).push(sv[i as int]));
        }
        i = i + 1;
    }
    proof {
        assert(sv.take(segs.len() as int) =~= sv);
    }
    Some(out)
}

/// The item a mount exposes, from what resolving its root path gave: an
/// unresolved path is not found (404), a file is refused; a folder gives
/// its id.
pub fn mount_root_item(
    root_path: &str,
    resolved: Result<crate::cache::CachedItem, String>,
) -> (r: Result<String, crate::errors::AppError>)
    ensures
        match resolved {
            Err(_) => r matches Err(crate::errors::AppError::GraphApi { message, status_code })
                && status_code == 404 && message@ == "mount root path not found: "@ + root_path@,
            Ok(item) => if item.is_dir {
                r == Ok::<String, crate::errors::AppError>(item.id)
            } else {
                r matches Err(crate::errors::AppError::Validation { message, field }) && message@
                    == "mount root path is not a folder: "@ + root_path@ && field@ == "rootPath"@
            },
        },
{
    match resolved {
        Err(_) => {
            let mut m = chars_of("mount root path not found: ");
            extend_str(&mut m, root_path);
            Err(crate::errors::AppError::GraphApi { message: string_of(m.as_slice()), status_code: 404 })
        },
        Ok(item) => if item.is_dir {
            Ok(item.id)
        } else {
            let mut m = chars_of("mount root path is not a folder: ");
            extend_str(&mut m, root_path);
            Err(
                crate::errors::AppError::Validation {
                    message: string_of(m.as_slice()),
                    field: string_of(chars_of("rootPath").as_slice()),
                },
            )
        },
    }
}

} // verus!
