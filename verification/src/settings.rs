//! Settings and accounts kept on disk: the one-time migration of the drive
//! list of the earlier desktop client into the account list, the backup
//! bundle's checks, and where an automatic backup goes. Reading and writing
//! the files is the caller's.

use vstd::prelude::*;
use crate::models::{AccountCategory, AccountEntry, AppConfig, CloudEnvironment};
use crate::text::{chars_eq_str, chars_of, extend_str, string_of, trim, trim_chars};

verus! {

/// File the settings are kept in, under the application data folder.
pub const CONFIG_FILE_NAME: &'static str = "config.json";
/// File the account list is kept in.
pub const ACCOUNTS_FILE_NAME: &'static str = "accounts.json";
/// Marker file written once the earlier client's drives were migrated.
pub const LEGACY_MIGRATION_MARKER: &'static str = ".legacy-drives-migrated";
/// File name of the automatic backup inside the backup folder.
pub const AUTO_BACKUP_FILE_NAME: &'static str = "ShareOneList-backup.json";
/// The `kind` a backup bundle carries.
pub const BACKUP_KIND: &'static str = "ShareOneList-backup";
/// The `backupVersion` a backup bundle carries.
pub const BACKUP_VERSION: u32 = 1;

/// Errors of reading or writing settings.
#[derive(Debug, Clone)]
pub enum ConfigError {
    Io(String),
    Serialize(String),
}

/// What importing a backup bundle brought in.
#[derive(Debug, Clone)]
pub struct ImportSummary {
    pub config: AppConfig,
    pub accounts_count: usize,
    pub accounts: Vec<AccountEntry>,
}

/// The drive record's provider, as the earlier client kept it.
#[derive(Debug, Clone)]
pub struct LegacyProvider {
    pub home_account_id: Option<String>,
    pub drive_id: Option<String>,
    /// `0` for the global cloud, `1` for the one operated in China.
    pub cloud_type: Option<u8>,
}

/// One drive of the earlier client's `cache/drives.json`.
#[derive(Debug, Clone)]
pub struct LegacyDrive {
    pub display_name: Option<String>,
    pub provider: Option<LegacyProvider>,
}

/// An account entry as values.
pub struct AccountView {
    pub home: Seq<char>,
    pub drive: Seq<char>,
    pub cloud: CloudEnvironment,
    pub name: Seq<char>,
    pub category: Option<AccountCategory>,
    pub alias: Option<Seq<char>>,
    pub icon: Option<Seq<char>>,
}

pub open spec fn opt_text(o: Option<String>) -> Option<Seq<char>> {
    match o {
        Some(s) => Some(s@),
        None => None,
    }
}

/// The text of an optional string, empty where there is none.
pub open spec fn text_or_empty(o: Option<String>) -> Seq<char> {
    match o {
        Some(s) => s@,
        None => Seq::empty(),
    }
}

pub open spec fn account_view(a: AccountEntry) -> AccountView {
    AccountView {
        home: a.home_account_id@,
        drive: a.drive_id@,
        cloud: a.cloud_type,
        name: a.display_name@,
        category: a.account_type,
        alias: opt_text(a.alias),
        icon: opt_text(a.icon),
    }
}

pub open spec fn accounts_view(xs: Seq<AccountEntry>) -> Seq<AccountView> {
    xs.map_values(|a: AccountEntry| account_view(a))
}

/// The cloud a legacy `CloudType` stands for; other values are skipped.
pub open spec fn legacy_cloud(t: Option<u8>) -> Option<CloudEnvironment> {
    match t {
        Some(v) => if v == 0 {
            Some(CloudEnvironment::Global)
        } else if v == 1 {
            Some(CloudEnvironment::China)
        } else {
            None
        },
        None => None,
    }
}

/// Whether an account entry is the legacy drive's: the same drive, the same
/// account (each only where the legacy record has one), or the same display
/// name in the same cloud.
pub open spec fn is_legacy_match(
    a: AccountView,
    drive: Seq<char>,
    home: Seq<char>,
    cloud: CloudEnvironment,
    name: Seq<char>,
) -> bool {
    (drive.len() > 0 && a.drive == drive) || (home.len() > 0 && a.home == home) || (a.cloud
        == cloud && a.name == name)
}

/// The first entry the legacy drive matches.
pub open spec fn first_legacy_match(
    xs: Seq<AccountView>,
    drive: Seq<char>,
    home: Seq<char>,
    cloud: CloudEnvironment,
    name: Seq<char>,
) -> Option<int>
    decreases xs.len(),
{
    if xs.len() == 0 {
        None
    } else if is_legacy_match(xs[0], drive, home, cloud, name) {
        Some(0)
    } else {
        match first_legacy_match(xs.drop_first(), drive, home, cloud, name) {
            Some(i) => Some(i + 1),
            None => None,
        }
    }
}

/// Whether a display name is a placeholder a legacy name replaces.
pub open spec fn is_placeholder_name(n: Seq<char>) -> bool {
    n.len() == 0 || n == "Unknown User"@
}

/// An existing entry completed from a legacy drive: a placeholder display
/// name, and a missing drive or account id, are filled in; whether anything
/// changed.
pub open spec fn completed(a: AccountView, drive: Seq<char>, home: Seq<char>, name: Seq<char>) -> (AccountView, bool) {
    let fix_name = is_placeholder_name(a.name);
    let fix_drive = a.drive.len() == 0 && drive.len() > 0;
    let fix_home = a.home.len() == 0 && home.len() > 0;
    (
        AccountView {
            name: if fix_name { name } else { a.name },
            drive: if fix_drive { drive } else { a.drive },
            home: if fix_home { home } else { a.home },
            ..a
        },
        fix_name || fix_drive || fix_home,
    )
}

/// One legacy drive merged into the account list (and whether the list
/// changed so far): a record without provider, with an unknown cloud, or
/// with a blank display name is skipped; the first matching entry is
/// completed; otherwise a new entry is appended.
pub open spec fn legacy_step(st: (Seq<AccountView>, bool), d: LegacyDrive) -> (Seq<AccountView>, bool) {
    match d.provider {
        None => st,
        Some(p) => match legacy_cloud(p.cloud_type) {
            None => st,
            Some(cloud) => {
                let home = text_or_empty(p.home_account_id);
                let drive = text_or_empty(p.drive_id);
                let name = text_or_empty(d.display_name);
                if trim(name).len() == 0 {
                    st
                } else {
                    match first_legacy_match(st.0, drive, home, cloud, name) {
                        Some(i) => {
                            let (b, ch) = completed(st.0[i], drive, home, name);
                            (st.0.update(i, b), st.1 || ch)
                        },
                        None => (
                            st.0.push(
                                AccountView {
                                    home,
                                    drive,
                                    cloud,
                                    name,
                                    category: None,
                                    alias: None,
                                    icon: None,
                                },
                            ),
                            true,
                        ),
                    }
                }
            },
        },
    }
}

/// The account list after merging the legacy drives in order, and whether
/// it changed.
pub open spec fn legacy_merged(xs: Seq<AccountView>, ds: Seq<LegacyDrive>) -> (Seq<AccountView>, bool)
    decreases ds.len(),
{
    if ds.len() == 0 {
        (xs, false)
    } else {
        legacy_step(legacy_merged(xs, ds.drop_last()), ds.last())
    }
}

fn same_text(a: &str, b: &str) -> (r: bool)
    ensures
        r == (a@ == b@),
{
    chars_eq_str(chars_of(a).as_slice(), b)
}

fn same_cloud(a: &CloudEnvironment, b: &CloudEnvironment) -> (r: bool)
    ensures
        r == (*a == *b),
{
    match (a, b) {
        (CloudEnvironment::Global, CloudEnvironment::Global) => true,
        (CloudEnvironment::China, CloudEnvironment::China) => true,
        _ => false,
    }
}

fn is_empty_text(s: &str) -> (r: bool)
    ensures
        r == (s@.len() == 0),
{
    chars_of(s).len() == 0
}

fn text_copy(s: &str) -> (out: String)
    ensures
        out@ == s@,
{
    string_of(chars_of(s).as_slice())
}

fn owned_or_empty(o: &Option<String>) -> (out: String)
    ensures
        out@ == text_or_empty(*o),
{
    match o {
        Some(s) => text_copy(s.as_str()),
        None => {
            let e = String::new();
            proof {
                assert(e@ =~= Seq::<char>::empty());
            }
            e
        },
    }
}

fn legacy_match_at(
    accounts: &Vec<AccountEntry>,
    drive: &str,
    home: &str,
    cloud: &CloudEnvironment,
    name: &str,
) -> (r: Option<usize>)
    ensures
        match r {
            Some(i) => i < accounts.len() && first_legacy_match(
                accounts_view(accounts@),
                drive@,
                home@,
                *cloud,
                name@,
            ) == Some(i as int),
            None => first_legacy_match(accounts_view(accounts@), drive@, home@, *cloud, name@) is None,
        },
{
    let ghost xs = accounts_view(accounts@);
    let has_drive = !is_empty_text(drive);
    let has_home = !is_empty_text(home);
    let mut i: usize = 0;
    proof {
        assert(xs.subrange(0, xs.len() as int) =~= xs);
    }
    while i < accounts.len()
        invariant
            i <= accounts.len(),
            xs == accounts_view(accounts@),
            has_drive == (drive@.len() > 0),
            has_home == (home@.len() > 0),
            first_legacy_match(xs, drive@, home@, *cloud, name@) == (match first_legacy_match(
                xs.subrange(i as int, xs.len() as int),
                drive@,
                home@,
                *cloud,
                name@,
            ) {
                Some(k) => Some(k + i),
                None => None::<int>,
            }),
        decreases accounts.len() - i,
    {
        let ghost rest = xs.subrange(i as int, xs.len() as int);
        proof {
            assert(rest[0] == account_view(accounts@[i as int]));
            assert(rest.drop_first() =~= xs.subrange(i + 1, xs.len() as int));
        }
        let a = &accounts[i];
        let hit = (has_drive && same_text(a.drive_id.as_str(), drive)) || (has_home && same_text(
            a.home_account_id.as_str(),
            home,
        )) || (same_cloud(&a.cloud_type, cloud) && same_text(a.display_name.as_str(), name));
        if hit {
            return Some(i);
        }
        i = i + 1;
    }
    proof {
        assert(xs.subrange(i as int, xs.len() as int) =~= Seq::<AccountView>::empty());
    }
    None
}

/// The first entry completed from a legacy drive (see `completed`).
fn complete_entry(a: AccountEntry, drive: &str, home: &str, name: &str) -> (r: (AccountEntry, bool))
    ensures
        (account_view(r.0), r.1) == completed(account_view(a), drive@, home@, name@),
{
    let mut a = a;
    let mut changed = false;
    let fix_name = is_empty_text(a.display_name.as_str()) || same_text(
        a.display_name.as_str(),
        "Unknown User",
    );
    if fix_name {
        a.display_name = text_copy(name);
        changed = true;
    }
    if is_empty_text(a.drive_id.as_str()) && !is_empty_text(drive) {
        a.drive_id = text_copy(drive);
        changed = true;
    }
    if is_empty_text(a.home_account_id.as_str()) && !is_empty_text(home) {
        a.home_account_id = text_copy(home);
        changed = true;
    }
    (a, changed)
}

fn cloud_of(t: Option<u8>) -> (r: Option<CloudEnvironment>)
    ensures
        r == legacy_cloud(t),
{
    match t {
        Some(0) => Some(CloudEnvironment::Global),
        Some(1) => Some(CloudEnvironment::China),
        _ => None,
    }
}

/// Merges the drives of the earlier client into the account list, in order
/// (see `legacy_step`), and says whether the list changed; a caller saves
/// the list only where it did.
pub fn merge_legacy_drives(accounts: Vec<AccountEntry>, legacy: &Vec<LegacyDrive>) -> (out: (Vec<AccountEntry>, bool))
    ensures
        (accounts_view(out.0@), out.1) == legacy_merged(accounts_view(accounts@), legacy@),
{
    let ghost start = accounts_view(accounts@);
    let mut accounts = accounts;
    let mut changed = false;
    let mut k: usize = 0;
    while k < legacy.len()
        invariant
            k <= legacy.len(),
            (accounts_view(accounts@), changed) == legacy_merged(start, legacy@.take(k as int)),
        decreases legacy.len() - k,
    {
        proof {
            assert(legacy@.take(k + 1).drop_last() =~= legacy@.take(k as int));
            assert(legacy@.take(k + 1).last() == legacy@[k as int]);
        }
        let ghost before = (accounts_view(accounts@), changed);
        let d = &legacy[k];
        match &d.provider {
            None => {},
            Some(p) => match cloud_of(p.cloud_type) {
                None => {},
                Some(cloud) => {
                    let home = owned_or_empty(&p.home_account_id);
                    let drive = owned_or_empty(&p.drive_id);
                    let name = owned_or_empty(&d.display_name);
                    let trimmed = trim_chars(chars_of(name.as_str()).as_slice());
                    if trimmed.len() > 0 {
                        match legacy_match_at(&accounts, drive.as_str(), home.as_str(), &cloud, name.as_str()) {
                            Some(i) => {
                                let a = accounts.remove(i);
                                proof {
                                    assert(account_view(a) == before.0[i as int]);
                                }
                                let (b, ch) = complete_entry(a, drive.as_str(), home.as_str(), name.as_str());
                                accounts.insert(i, b);
                                if ch {
                                    changed = true;
                                }
                                proof {
                                    assert(accounts_view(accounts@) =~= before.0.update(i as int, account_view(b)));
                                }
                            },
                            None => {
                                let e = AccountEntry {
                                    home_account_id: home,
                                    drive_id: drive,
                                    cloud_type: cloud,
                                    display_name: name,
                                    account_type: None,
                                    alias: None,
                                    icon: None,
                                };
                                accounts.push(e);
                                changed = true;
                                proof {
                                    assert(accounts_view(accounts@) =~= before.0.push(account_view(e)));
                                }
                            },
                        }
                    }
                },
            },
        }
        k = k + 1;
    }
    proof {
        assert(legacy@.take(legacy.len() as int) =~= legacy@);
    }
    (accounts, changed)
}

/// The backup folder a setting names: only one that is not blank counts.
pub open spec fn backup_dir(dir: Option<String>) -> Option<Seq<char>> {
    match dir {
        Some(d) => if trim(d@).len() > 0 {
            Some(d@)
        } else {
            None
        },
        None => None,
    }
}

/// The backup folder a setting names (see `backup_dir`): a blank one turns
/// the automatic backup off.
pub fn backup_dir_setting(dir: Option<String>) -> (r: Option<String>)
    ensures
        opt_text(r) == backup_dir(dir),
{
    match dir {
        Some(d) => {
            let t = trim_chars(chars_of(d.as_str()).as_slice());
            if t.len() > 0 {
                Some(d)
            } else {
                None
            }
        },
        None => None,
    }
}

/// The folder the automatic backup is written to, if one is configured.
pub fn auto_backup_target(config: &AppConfig) -> (r: Option<String>)
    ensures
        opt_text(r) == backup_dir(config.auto_backup_dir),
{
    let d = match &config.auto_backup_dir {
        Some(s) => Some(text_copy(s.as_str())),
        None => None,
    };
    backup_dir_setting(d)
}

fn serialize_message(m: &str) -> (e: ConfigError)
    ensures
        e matches ConfigError::Serialize(t) && t@ == m@,
{
    ConfigError::Serialize(text_copy(m))
}

fn serialize_error(prefix: &str, detail: &str) -> (e: ConfigError)
    ensures
        e matches ConfigError::Serialize(m) && m@ == prefix@ + detail@,
{
    let mut v = chars_of(prefix);
    extend_str(&mut v, detail);
    ConfigError::Serialize(string_of(v.as_slice()))
}

/// What importing a bundle gives, from its `kind`, and its `config` and
/// `accounts` members each as absent, unreadable (the reader's message) or
/// read: the first failing check in that order decides the error.
pub open spec fn import_result(
    kind: Option<Seq<char>>,
    config: Option<Result<AppConfig, String>>,
    accounts: Option<Result<Vec<AccountEntry>, String>>,
) -> Result<(AppConfig, Seq<AccountEntry>), Seq<char>> {
    if kind != Some(BACKUP_KIND@) {
        Err("not a ShareOneList backup file"@)
    } else {
        match config {
            None => Err("missing config"@),
            Some(Err(e)) => Err("invalid config: "@ + e@),
            Some(Ok(c)) => match accounts {
                None => Err("missing accounts"@),
                Some(Err(e)) => Err("invalid accounts: "@ + e@),
                Some(Ok(a)) => Ok((c, a@)),
            },
        }
    }
}

/// Checks a backup bundle's members (see `import_result`); what it gives is
/// saved as the settings and the account list, and the number of accounts
/// reported. Every failure is a serialization error.
pub fn read_backup_bundle(
    kind: Option<String>,
    config: Option<Result<AppConfig, String>>,
    accounts: Option<Result<Vec<AccountEntry>, String>>,
) -> (r: Result<ImportSummary, ConfigError>)
    ensures
        match import_result(opt_text(kind), config, accounts) {
            Ok((c, a)) => r matches Ok(s) && s.config == c && s.accounts@ == a && s.accounts_count
                == a.len(),
            Err(m) => r matches Err(ConfigError::Serialize(t)) && t@ == m,
        },
{
    let kind_ok = match &kind {
        Some(k) => same_text(k.as_str(), BACKUP_KIND),
        None => false,
    };
    if !kind_ok {
        return Err(serialize_message("not a ShareOneList backup file"));
    }
    let c = match config {
        None => return Err(serialize_message("missing config")),
        Some(Err(e)) => return Err(serialize_error("invalid config: ", e.as_str())),
        Some(Ok(c)) => c,
    };
    let a = match accounts {
        None => return Err(serialize_message("missing accounts")),
        Some(Err(e)) => return Err(serialize_error("invalid accounts: ", e.as_str())),
        Some(Ok(a)) => a,
    };
    let n = a.len();
    Ok(ImportSummary { config: c, accounts_count: n, accounts: a })
}

impl ConfigError {
    /// The error's message: `IO error: …` or `Serialization error: …`.
    pub fn to_display_string(&self) -> (s: String)
        ensures
            s@ == match self {
                ConfigError::Io(m) => "IO error: "@ + m@,
                ConfigError::Serialize(m) => "Serialization error: "@ + m@,
            },
    {
        let (prefix, m) = match self {
            ConfigError::Io(m) => ("IO error: ", m),
            ConfigError::Serialize(m) => ("Serialization error: ", m),
        };
        let mut v = chars_of(prefix);
        extend_str(&mut v, m.as_str());
        string_of(v.as_slice())
    }
}

} // verus!
