//! Signed-in accounts: the sessions kept per cloud and account, which
//! account owns which drive, when a token is refreshed, what a refresh or a
//! login leaves behind, the refresh tokens kept in the platform credential
//! store, the authorization request and the browser's redirect back. The
//! token endpoint and the browser are the caller's.

use vstd::prelude::*;
use crate::auth::{
    cloud_config, keyring_key, keyring_key_of, string_views, url_encode, CloudConfig,
};
use crate::errors::AppError;
use crate::models::{AccountCategory, AccountEntry, CloudEnvironment};
use crate::secrets::{entry_delete, entry_get_password, entry_set_password, keyring_entry};
use crate::text::{chars_eq_str, chars_of, extend_chars, extend_str, string_of};

verus! {

/// The credential-store service refresh tokens are kept under.
pub const KEYRING_SERVICE: &'static str = "shareonelist";

/// Tokens are refreshed when they expire within this many seconds.
pub const REFRESH_MARGIN_SECS: i64 = 300;

/// An active session of one account in one cloud; `expires_at` is a UTC
/// Unix time in seconds.
#[derive(Debug, Clone)]
pub struct AuthSession {
    pub cloud_env: CloudEnvironment,
    pub client_id: String,
    pub access_token: String,
    pub refresh_token: String,
    pub expires_at: i64,
    pub home_account_id: String,
    pub display_name: String,
}

/// Which account owns a drive in a cloud.
#[derive(Debug, Clone)]
pub struct DriveOwner {
    pub cloud_env: CloudEnvironment,
    pub drive_id: String,
    pub home_account_id: String,
}

/// The sessions, keyed by cloud and account, and the drive owners, keyed
/// by cloud and drive.
#[derive(Debug)]
pub struct AuthModule {
    pub sessions: Vec<AuthSession>,
    pub drive_to_account: Vec<DriveOwner>,
}

// ── Keys ────────────────────────────────────────────────────────────────

/// A key: a cloud and an id.
pub type Key = (CloudEnvironment, Seq<char>);

/// Position of the first `k` in `keys`.
pub open spec fn first_key(keys: Seq<Key>, k: Key) -> Option<int>
    decreases keys.len(),
{
    if keys.len() == 0 {
        None
    } else {
        match first_key(keys.drop_last(), k) {
            Some(i) => Some(i),
            None => if keys.last() == k {
                Some(keys.len() - 1)
            } else {
                None
            },
        }
    }
}

/// No key occurs twice.
pub open spec fn distinct_keys(keys: Seq<Key>) -> bool {
    forall|i: int, j: int| 0 <= i < keys.len() && 0 <= j < keys.len() && i != j ==> #[trigger] keys[i] != #[trigger] keys[j]
}

/// `first_key` finds the first occurrence and misses only absent keys.
proof fn lemma_first_key(keys: Seq<Key>, k: Key)
    ensures
        match first_key(keys, k) {
            Some(i) => 0 <= i < keys.len() && keys[i] == k && forall|m: int| 0 <= m < i ==> keys[m] != k,
            None => forall|m: int| 0 <= m < keys.len() ==> keys[m] != k,
        },
    decreases keys.len(),
{
    if keys.len() > 0 {
        let d = keys.drop_last();
        lemma_first_key(d, k);
        assert forall|m: int| 0 <= m < d.len() implies d[m] == keys[m] by {}
    }
}

proof fn lemma_first_key_is(keys: Seq<Key>, k: Key, i: int)
    requires
        0 <= i < keys.len(),
        keys[i] == k,
        forall|m: int| 0 <= m < i ==> keys[m] != k,
    ensures
        first_key(keys, k) == Some(i),
    decreases keys.len(),
{
    if i < keys.len() - 1 {
        lemma_first_key_is(keys.drop_last(), k, i);
    } else {
        lemma_first_key(keys.drop_last(), k);
    }
}

/// The keys of sessions.
pub open spec fn session_keys(s: Seq<AuthSession>) -> Seq<Key> {
    s.map_values(|x: AuthSession| (x.cloud_env, x.home_account_id@))
}

/// The keys of drive owners.
pub open spec fn owner_keys(o: Seq<DriveOwner>) -> Seq<Key> {
    o.map_values(|x: DriveOwner| (x.cloud_env, x.drive_id@))
}

impl AuthModule {
    /// Each cloud and account has at most one session, and each cloud and
    /// drive at most one owner.
    pub open spec fn wf(&self) -> bool {
        &&& distinct_keys(session_keys(self.sessions@))
        &&& distinct_keys(owner_keys(self.drive_to_account@))
    }

    /// The session of an account, if there is one.
    pub open spec fn session(&self, env: CloudEnvironment, id: Seq<char>) -> Option<AuthSession> {
        match first_key(session_keys(self.sessions@), (env, id)) {
            Some(i) => Some(self.sessions@[i]),
            None => None,
        }
    }

    /// The account that owns a drive, if known.
    pub open spec fn owner(&self, env: CloudEnvironment, drive: Seq<char>) -> Option<Seq<char>> {
        match first_key(owner_keys(self.drive_to_account@), (env, drive)) {
            Some(i) => Some(self.drive_to_account@[i].home_account_id@),
            None => None,
        }
    }
}

/// Whether two clouds are the same.
fn same_env(a: &CloudEnvironment, b: &CloudEnvironment) -> (r: bool)
    ensures
        r == (*a == *b),
{
    match (a, b) {
        (CloudEnvironment::Global, CloudEnvironment::Global) => true,
        (CloudEnvironment::China, CloudEnvironment::China) => true,
        _ => false,
    }
}

/// Whether two strings are equal.
fn same_text(a: &str, b: &str) -> (r: bool)
    ensures
        r == (a@ == b@),
{
    chars_eq_str(chars_of(a).as_slice(), b)
}

/// Position of the session of an account.
fn find_session(sessions: &Vec<AuthSession>, env: &CloudEnvironment, id: &str) -> (r: Option<usize>)
    ensures
        match r {
            Some(i) => i < sessions@.len() && first_key(session_keys(sessions@), (*env, id@)) == Some(i as int),
            None => first_key(session_keys(sessions@), (*env, id@)) is None,
        },
{
    let ghost keys = session_keys(sessions@);
    let mut i: usize = 0;
    while i < sessions.len()
        invariant
            i <= sessions@.len(),
            keys == session_keys(sessions@),
            forall|m: int| 0 <= m < i ==> keys[m] != (*env, id@),
        decreases sessions.len() - i,
    {
        if same_env(&sessions[i].cloud_env, env) && same_text(sessions[i].home_account_id.as_str(), id) {
            proof {
                lemma_first_key_is(keys, (*env, id@), i as int);
            }
            return Some(i);
        }
        i = i + 1;
    }
    proof {
        lemma_first_key(keys, (*env, id@));
    }
    None
}

/// Position of the owner of a drive.
fn find_owner(owners: &Vec<DriveOwner>, env: &CloudEnvironment, drive: &str) -> (r: Option<usize>)
    ensures
        match r {
            Some(i) => i < owners@.len() && first_key(owner_keys(owners@), (*env, drive@)) == Some(i as int),
            None => first_key(owner_keys(owners@), (*env, drive@)) is None,
        },
{
    let ghost keys = owner_keys(owners@);
    let mut i: usize = 0;
    while i < owners.len()
        invariant
            i <= owners@.len(),
            keys == owner_keys(owners@),
            forall|m: int| 0 <= m < i ==> keys[m] != (*env, drive@),
        decreases owners.len() - i,
    {
        if same_env(&owners[i].cloud_env, env) && same_text(owners[i].drive_id.as_str(), drive) {
            proof {
                lemma_first_key_is(keys, (*env, drive@), i as int);
            }
            return Some(i);
        }
        i = i + 1;
    }
    proof {
        lemma_first_key(keys, (*env, drive@));
    }
    None
}

/// Adding a key that is not there keeps keys distinct; it is found at the
/// end and every other key where it was.
proof fn lemma_push_fresh_key(keys: Seq<Key>, k: Key)
    requires
        distinct_keys(keys),
        first_key(keys, k) is None,
    ensures
        distinct_keys(keys.push(k)),
        forall|y: Key| #[trigger] first_key(keys.push(k), y) == if y == k {
            Some(keys.len() as int)
        } else {
            first_key(keys, y)
        },
{
    lemma_first_key(keys, k);
    let n = keys.push(k);
    assert(n.drop_last() =~= keys);
    assert forall|i: int, j: int| 0 <= i < n.len() && 0 <= j < n.len() && i != j implies #[trigger] n[i] != #[trigger] n[j] by {
        if i < keys.len() && j < keys.len() {
            assert(keys[i] != keys[j]);
        }
    }
}

/// Dropping the entry at `i` keeps keys distinct; its key is then missing
/// and every other key is found where it was, shifted down past `i`.
proof fn lemma_remove_key(keys: Seq<Key>, i: int)
    requires
        distinct_keys(keys),
        0 <= i < keys.len(),
    ensures
        distinct_keys(keys.remove(i)),
        first_key(keys.remove(i), keys[i]) is None,
        forall|y: Key| y != keys[i] ==> #[trigger] first_key(keys.remove(i), y) == match first_key(keys, y) {
            Some(j) => Some(if j < i { j } else { j - 1 }),
            None => None,
        },
{
    let r = keys.remove(i);
    assert forall|a: int, b: int| 0 <= a < r.len() && 0 <= b < r.len() && a != b implies #[trigger] r[a] != #[trigger] r[b] by {
        let oa = if a < i { a } else { a + 1 };
        let ob = if b < i { b } else { b + 1 };
        assert(r[a] == keys[oa]);
        assert(r[b] == keys[ob]);
    }
    assert forall|m: int| 0 <= m < r.len() implies r[m] != keys[i] by {
        let o = if m < i { m } else { m + 1 };
        assert(r[m] == keys[o]);
        assert(keys[o] != keys[i]);
    }
    lemma_first_key(r, keys[i]);
    assert forall|y: Key| y != keys[i] implies #[trigger] first_key(r, y) == match first_key(keys, y) {
        Some(j) => Some(if j < i { j } else { j - 1 }),
        None => None,
    } by {
        lemma_first_key(keys, y);
        match first_key(keys, y) {
            Some(j) => {
                let nj = if j < i { j } else { j - 1 };
                assert(r[nj] == keys[j]);
                assert forall|m: int| 0 <= m < nj implies r[m] != y by {
                    let o = if m < i { m } else { m + 1 };
                    assert(r[m] == keys[o]);
                }
                lemma_first_key_is(r, y, nj);
            },
            None => {
                assert forall|m: int| 0 <= m < r.len() implies r[m] != y by {
                    let o = if m < i { m } else { m + 1 };
                    assert(r[m] == keys[o]);
                }
                lemma_first_key(r, y);
            },
        }
    }
}

// ── The credential store ────────────────────────────────────────────────

/// What a credential-store request for a refresh token answers: the
/// entry could not be made (`Err` of the store's message), or the request
/// on the entry came back (`Ok` of its answer). A refused request is
/// reported as `failure` followed by the store's message.
pub fn keyring_outcome(answer: Result<Result<(), String>, String>, failure: &str) -> (r: Result<(), String>)
    ensures
        match answer {
            Err(e) => r matches Err(m) && m@ == "Keyring entry creation failed: "@ + e@,
            Ok(Ok(())) => r is Ok,
            Ok(Err(e)) => r matches Err(m) && m@ == failure@ + e@,
        },
{
    match answer {
        Err(e) => {
            let mut m: Vec<char> = Vec::new();
            extend_str(&mut m, "Keyring entry creation failed: ");
            extend_str(&mut m, e.as_str());
            Err(string_of(m.as_slice()))
        },
        Ok(Ok(())) => Ok(()),
        Ok(Err(e)) => {
            let mut m: Vec<char> = Vec::new();
            extend_str(&mut m, failure);
            extend_str(&mut m, e.as_str());
            Err(string_of(m.as_slice()))
        },
    }
}

/// Keeps an account's refresh token in the credential store, under the
/// user `keyring_key_of(cloud_env, home_account_id)`; a failure is reported
/// as `keyring_outcome` words it.
pub fn store_refresh_token(cloud_env: &CloudEnvironment, home_account_id: &str, token: &str) -> (r: Result<(), String>)
    ensures
        r matches Err(m) ==> exists|t: Seq<char>|
            m@ == "Keyring entry creation failed: "@ + t || m@ == "Keyring set_password failed: "@ + t,
{
    let key = keyring_key(cloud_env, home_account_id);
    let answer = match keyring_entry(KEYRING_SERVICE, key.as_str()) {
        Ok(entry) => Ok(entry_set_password(&entry, token)),
        Err(e) => Err(e),
    };
    keyring_outcome(answer, "Keyring set_password failed: ")
}

/// An account's refresh token from the credential store, if it has one.
/// Whether it has one, and what it holds, is the store's.
pub fn load_refresh_token(cloud_env: &CloudEnvironment, home_account_id: &str) -> (r: Option<String>) {
    let key = keyring_key(cloud_env, home_account_id);
    match keyring_entry(KEYRING_SERVICE, key.as_str()) {
        Ok(entry) => entry_get_password(&entry),
        Err(_) => None,
    }
}

/// Drops an account's refresh token from the credential store; a failure
/// is reported as `keyring_outcome` words it.
pub fn delete_refresh_token(cloud_env: &CloudEnvironment, home_account_id: &str) -> (r: Result<(), String>)
    ensures
        r matches Err(m) ==> exists|t: Seq<char>|
            m@ == "Keyring entry creation failed: "@ + t || m@ == "Keyring delete failed: "@ + t,
{
    let key = keyring_key(cloud_env, home_account_id);
    let answer = match keyring_entry(KEYRING_SERVICE, key.as_str()) {
        Ok(entry) => Ok(entry_delete(&entry)),
        Err(e) => Err(e),
    };
    keyring_outcome(answer, "Keyring delete failed: ")
}

// ── The ledger ──────────────────────────────────────────────────────────

/// The auth error of a cloud with a message.
pub open spec fn is_auth_error(e: AppError, m: Seq<char>, env: CloudEnvironment) -> bool {
    e matches AppError::Auth { message, cloud_env } && message@ == m && cloud_env == env
}

fn auth_error(m: &str, env: &CloudEnvironment) -> (e: AppError)
    ensures
        is_auth_error(e, m@, *env),
{
    AppError::Auth { message: m.to_owned(), cloud_env: *env }
}

/// A copy of a session.
fn copy_session(s: &AuthSession) -> (r: AuthSession)
    ensures
        r == *s,
{
    AuthSession {
        cloud_env: s.cloud_env,
        client_id: s.client_id.clone(),
        access_token: s.access_token.clone(),
        refresh_token: s.refresh_token.clone(),
        expires_at: s.expires_at,
        home_account_id: s.home_account_id.clone(),
        display_name: s.display_name.clone(),
    }
}

impl AuthModule {
    /// No sessions and no known drives.
    pub fn new() -> (m: AuthModule)
        ensures
            m.wf(),
            m.sessions@.len() == 0,
            m.drive_to_account@.len() == 0,
    {
        AuthModule { sessions: Vec::new(), drive_to_account: Vec::new() }
    }

    /// Keeps `session` under the key `(env, id)`, replacing what was there.
    fn put_session(&mut self, env: CloudEnvironment, id: &str, session: AuthSession)
        requires
            old(self).wf(),
            session.cloud_env == env,
            session.home_account_id@ == id@,
        ensures
            final(self).wf(),
            final(self).drive_to_account == old(self).drive_to_account,
            final(self).session(env, id@) == Some(session),
            forall|e: CloudEnvironment, x: Seq<char>| (e, x) != (env, id@) ==> #[trigger] final(self).session(e, x) == old(self).session(e, x),
    {
        let ghost old_s = self.sessions@;
        let ghost k = (env, id@);
        match find_session(&self.sessions, &env, id) {
            Some(i) => {
                proof {
                    lemma_first_key(session_keys(old_s), k);
                }
                self.sessions.remove(i);
                self.sessions.insert(i, session);
                proof {
                    assert(self.sessions@ =~= old_s.update(i as int, session));
                    assert(session_keys(self.sessions@) =~= session_keys(old_s));
                    assert forall|e: CloudEnvironment, x: Seq<char>| (e, x) != k implies #[trigger] self.session(e, x) == old(self).session(e, x) by {
                        lemma_first_key(session_keys(old_s), (e, x));
                    }
                }
            },
            None => {
                self.sessions.push(session);
                proof {
                    assert(session_keys(self.sessions@) =~= session_keys(old_s).push(k));
                    lemma_push_fresh_key(session_keys(old_s), k);
                    assert forall|e: CloudEnvironment, x: Seq<char>| (e, x) != k implies #[trigger] self.session(e, x) == old(self).session(e, x) by {
                        lemma_first_key(session_keys(old_s), (e, x));
                    }
                    assert(self.session(env, id@) == Some(self.sessions@[old_s.len() as int]));
                }
            },
        }
    }

    /// Forgets the session of `(env, id)`, if any.
    fn drop_session(&mut self, env: &CloudEnvironment, id: &str)
        requires
            old(self).wf(),
        ensures
            final(self).wf(),
            final(self).drive_to_account == old(self).drive_to_account,
            final(self).session(*env, id@) is None,
            forall|e: CloudEnvironment, x: Seq<char>| (e, x) != (*env, id@) ==> #[trigger] final(self).session(e, x) == old(self).session(e, x),
    {
        let ghost old_s = self.sessions@;
        let ghost k = (*env, id@);
        match find_session(&self.sessions, env, id) {
            Some(i) => {
                proof {
                    lemma_first_key(session_keys(old_s), k);
                    lemma_remove_key(session_keys(old_s), i as int);
                }
                self.sessions.remove(i);
                proof {
                    assert(session_keys(self.sessions@) =~= session_keys(old_s).remove(i as int));
                    assert forall|e: CloudEnvironment, x: Seq<char>| (e, x) != k implies #[trigger] self.session(e, x) == old(self).session(e, x) by {
                        lemma_first_key(session_keys(old_s), (e, x));
                        match first_key(session_keys(old_s), (e, x)) {
                            Some(j) => {
                                let nj = if j < i { j } else { j - 1 };
                                assert(self.sessions@[nj] == old_s[j]);
                            },
                            None => {},
                        }
                    }
                }
            },
            None => {},
        }
    }

    /// Records that `id` owns `drive` in `env`, replacing an earlier owner.
    fn put_owner(&mut self, env: CloudEnvironment, drive: &str, id: &str)
        requires
            old(self).wf(),
        ensures
            final(self).wf(),
            final(self).sessions == old(self).sessions,
            final(self).owner(env, drive@) == Some(id@),
            forall|e: CloudEnvironment, d: Seq<char>| (e, d) != (env, drive@) ==> #[trigger] final(self).owner(e, d) == old(self).owner(e, d),
    {
        let ghost old_o = self.drive_to_account@;
        let ghost k = (env, drive@);
        let o = DriveOwner { cloud_env: env, drive_id: drive.to_owned(), home_account_id: id.to_owned() };
        match find_owner(&self.drive_to_account, &env, drive) {
            Some(i) => {
                proof {
                    lemma_first_key(owner_keys(old_o), k);
                }
                self.drive_to_account.remove(i);
                self.drive_to_account.insert(i, o);
                proof {
                    assert(self.drive_to_account@ =~= old_o.update(i as int, o));
                    assert(owner_keys(self.drive_to_account@) =~= owner_keys(old_o));
                    assert forall|e: CloudEnvironment, d: Seq<char>| (e, d) != k implies #[trigger] self.owner(e, d) == old(self).owner(e, d) by {
                        lemma_first_key(owner_keys(old_o), (e, d));
                    }
                }
            },
            None => {
                self.drive_to_account.push(o);
                proof {
                    assert(owner_keys(self.drive_to_account@) =~= owner_keys(old_o).push(k));
                    lemma_push_fresh_key(owner_keys(old_o), k);
                    assert forall|e: CloudEnvironment, d: Seq<char>| (e, d) != k implies #[trigger] self.owner(e, d) == old(self).owner(e, d) by {
                        lemma_first_key(owner_keys(old_o), (e, d));
                    }
                    assert(self.owner(env, drive@) == Some(self.drive_to_account@[old_o.len() as int].home_account_id@));
                }
            },
        }
    }

    /// Whether an account has a session.
    pub fn has_session(&self, cloud_env: &CloudEnvironment, home_account_id: &str) -> (r: bool)
        ensures
            r == (self.session(*cloud_env, home_account_id@) is Some),
    {
        find_session(&self.sessions, cloud_env, home_account_id).is_some()
    }

    /// The session of an account, if any.
    pub fn get_session(&self, cloud_env: &CloudEnvironment, home_account_id: &str) -> (r: Option<&AuthSession>)
        ensures
            match self.session(*cloud_env, home_account_id@) {
                Some(s) => r == Some(&s),
                None => r is None,
            },
    {
        match find_session(&self.sessions, cloud_env, home_account_id) {
            Some(i) => Some(&self.sessions[i]),
            None => None,
        }
    }

    /// The account that owns a drive; without one, `No active session for
    /// this drive. Please login first.`
    pub fn account_for_drive(&self, cloud_env: &CloudEnvironment, drive_id: &str) -> (r: Result<String, AppError>)
        ensures
            match self.owner(*cloud_env, drive_id@) {
                Some(id) => r matches Ok(a) && a@ == id,
                None => r matches Err(e) && is_auth_error(e, "No active session for this drive. Please login first."@, *cloud_env),
            },
    {
        match find_owner(&self.drive_to_account, cloud_env, drive_id) {
            Some(i) => Ok(self.drive_to_account[i].home_account_id.clone()),
            None => Err(auth_error("No active session for this drive. Please login first.", cloud_env)),
        }
    }

    /// The access token of an account's session; without one, `No active
    /// session for this account. Please login first.`
    pub fn access_token(&self, cloud_env: &CloudEnvironment, home_account_id: &str) -> (r: Result<String, AppError>)
        ensures
            match self.session(*cloud_env, home_account_id@) {
                Some(s) => r matches Ok(t) && t == s.access_token,
                None => r matches Err(e) && is_auth_error(e, "No active session for this account. Please login first."@, *cloud_env),
            },
    {
        match find_session(&self.sessions, cloud_env, home_account_id) {
            Some(i) => Ok(self.sessions[i].access_token.clone()),
            None => Err(auth_error("No active session for this account. Please login first.", cloud_env)),
        }
    }

    /// Some account with a session in a cloud (the first kept); without
    /// one, `No active session. Please login first.`
    pub fn any_account(&self, cloud_env: &CloudEnvironment) -> (r: Result<String, AppError>)
        ensures
            match r {
                Ok(id) => self.session(*cloud_env, id@) is Some,
                Err(e) => is_auth_error(e, "No active session. Please login first."@, *cloud_env)
                    && forall|i: int| 0 <= i < self.sessions@.len() ==> (#[trigger] self.sessions@[i]).cloud_env != *cloud_env,
            },
    {
        let mut i: usize = 0;
        while i < self.sessions.len()
            invariant
                i <= self.sessions@.len(),
                forall|m: int| 0 <= m < i ==> (#[trigger] self.sessions@[m]).cloud_env != *cloud_env,
            decreases self.sessions.len() - i,
        {
            if same_env(&self.sessions[i].cloud_env, cloud_env) {
                let id = self.sessions[i].home_account_id.clone();
                proof {
                    assert(session_keys(self.sessions@)[i as int] == (*cloud_env, id@));
                    lemma_first_key(session_keys(self.sessions@), (*cloud_env, id@));
                }
                return Ok(id);
            }
            i = i + 1;
        }
        Err(auth_error("No active session. Please login first.", cloud_env))
    }
}

// ── Logging in and out ──────────────────────────────────────────────────

/// Whether a logout of `env` (of `id` only, where given) drops an owner.
pub open spec fn owner_dropped(o: DriveOwner, env: CloudEnvironment, id: Option<Seq<char>>) -> bool {
    o.cloud_env == env && match id {
        Some(a) => o.home_account_id@ == a,
        None => true,
    }
}

/// The owners a logout keeps, in order.
pub open spec fn owners_kept(xs: Seq<DriveOwner>, env: CloudEnvironment, id: Option<Seq<char>>) -> Seq<DriveOwner>
    decreases xs.len(),
{
    if xs.len() == 0 {
        Seq::empty()
    } else {
        let r = owners_kept(xs.drop_last(), env, id);
        if owner_dropped(xs.last(), env, id) {
            r
        } else {
            r.push(xs.last())
        }
    }
}

/// The sessions a logout of every account of `env` keeps, in order.
pub open spec fn sessions_kept(xs: Seq<AuthSession>, env: CloudEnvironment) -> Seq<AuthSession>
    decreases xs.len(),
{
    if xs.len() == 0 {
        Seq::empty()
    } else {
        let r = sessions_kept(xs.drop_last(), env);
        if xs.last().cloud_env == env {
            r
        } else {
            r.push(xs.last())
        }
    }
}

/// The elements of `xs` that `dropped` does not drop, in order.
pub open spec fn kept<T>(xs: Seq<T>, dropped: spec_fn(T) -> bool) -> Seq<T>
    decreases xs.len(),
{
    if xs.len() == 0 {
        Seq::empty()
    } else {
        let r = kept(xs.drop_last(), dropped);
        if dropped(xs.last()) {
            r
        } else {
            r.push(xs.last())
        }
    }
}

/// Looking up a key past a pushed element with another key.
proof fn lemma_first_key_push(keys: Seq<Key>, x: Key, k: Key)
    requires
        k != x,
    ensures
        first_key(keys.push(x), k) == first_key(keys, k),
{
    assert(keys.push(x).drop_last() =~= keys);
}

/// Lookups among kept elements: a kept element is found as before, a
/// dropped one not at all, and keys stay distinct.
proof fn lemma_kept<T>(xs: Seq<T>, dropped: spec_fn(T) -> bool, key: spec_fn(T) -> Key, k: Key)
    requires
        distinct_keys(xs.map_values(key)),
    ensures
        distinct_keys(kept(xs, dropped).map_values(key)),
        first_key(kept(xs, dropped).map_values(key), k) is Some <==> (
            first_key(xs.map_values(key), k) matches Some(j) && !dropped(xs[j])),
        first_key(kept(xs, dropped).map_values(key), k) matches Some(j2) ==> (
            first_key(xs.map_values(key), k) matches Some(j) && kept(xs, dropped)[j2] == xs[j]),
    decreases xs.len(),
{
    if xs.len() > 0 {
        let d = xs.drop_last();
        let last = xs.last();
        let lk = key(last);
        let ks = xs.map_values(key);
        let kd = d.map_values(key);
        assert(kd =~= ks.drop_last());
        assert(ks =~= kd.push(lk));
        assert forall|i: int, j: int| 0 <= i < kd.len() && 0 <= j < kd.len() && i != j implies #[trigger] kd[i] != #[trigger] kd[j] by {
            assert(ks[i] != ks[j]);
        }
        lemma_kept(d, dropped, key, k);
        lemma_kept(d, dropped, key, lk);
        let r = kept(d, dropped);
        let kr = r.map_values(key);
        assert forall|m: int| 0 <= m < kd.len() implies kd[m] != lk by {
            assert(ks[m] != ks[xs.len() - 1]);
        }
        lemma_first_key(kd, lk);
        lemma_first_key(kr, lk);
        lemma_first_key(kd, k);
        if k == lk {
            lemma_first_key_is(ks, lk, xs.len() - 1);
        } else {
            lemma_first_key_push(kd, lk, k);
        }
        if !dropped(last) {
            let nr = r.push(last);
            assert(nr.map_values(key) =~= kr.push(lk));
            lemma_push_fresh_key(kr, lk);
            if k == lk {
                assert(nr[r.len() as int] == last);
            } else {
                lemma_first_key_push(kr, lk, k);
                lemma_first_key(kr, k);
                match first_key(kr, k) {
                    Some(j2) => {
                        assert(nr[j2] == r[j2]);
                    },
                    None => {},
                }
            }
        }
    }
}

/// Lookups among the owners a logout keeps (see `lemma_kept`).
proof fn lemma_owners_kept(xs: Seq<DriveOwner>, env: CloudEnvironment, id: Option<Seq<char>>, k: Key)
    requires
        distinct_keys(owner_keys(xs)),
    ensures
        distinct_keys(owner_keys(owners_kept(xs, env, id))),
        first_key(owner_keys(owners_kept(xs, env, id)), k) is Some <==> (
            first_key(owner_keys(xs), k) matches Some(j) && !owner_dropped(xs[j], env, id)),
        first_key(owner_keys(owners_kept(xs, env, id)), k) matches Some(j2) ==> (
            first_key(owner_keys(xs), k) matches Some(j) && owners_kept(xs, env, id)[j2] == xs[j]),
{
    let dropped = |o: DriveOwner| owner_dropped(o, env, id);
    let key = |o: DriveOwner| (o.cloud_env, o.drive_id@);
    lemma_owners_kept_is_kept(xs, env, id);
    assert(xs.map_values(key) =~= owner_keys(xs));
    assert(kept(xs, dropped).map_values(key) =~= owner_keys(owners_kept(xs, env, id)));
    lemma_kept(xs, dropped, key, k);
}

proof fn lemma_owners_kept_is_kept(xs: Seq<DriveOwner>, env: CloudEnvironment, id: Option<Seq<char>>)
    ensures
        owners_kept(xs, env, id) == kept(xs, |o: DriveOwner| owner_dropped(o, env, id)),
    decreases xs.len(),
{
    if xs.len() > 0 {
        lemma_owners_kept_is_kept(xs.drop_last(), env, id);
    }
}

/// Lookups among the sessions a logout keeps (see `lemma_kept`).
proof fn lemma_sessions_kept(xs: Seq<AuthSession>, env: CloudEnvironment, k: Key)
    requires
        distinct_keys(session_keys(xs)),
    ensures
        distinct_keys(session_keys(sessions_kept(xs, env))),
        first_key(session_keys(sessions_kept(xs, env)), k) is Some <==> (
            first_key(session_keys(xs), k) matches Some(j) && xs[j].cloud_env != env),
        first_key(session_keys(sessions_kept(xs, env)), k) matches Some(j2) ==> (
            first_key(session_keys(xs), k) matches Some(j) && sessions_kept(xs, env)[j2] == xs[j]),
{
    let dropped = |x: AuthSession| x.cloud_env == env;
    let key = |x: AuthSession| (x.cloud_env, x.home_account_id@);
    lemma_sessions_kept_is_kept(xs, env);
    assert(xs.map_values(key) =~= session_keys(xs));
    assert(kept(xs, dropped).map_values(key) =~= session_keys(sessions_kept(xs, env)));
    lemma_kept(xs, dropped, key, k);
}

proof fn lemma_sessions_kept_is_kept(xs: Seq<AuthSession>, env: CloudEnvironment)
    ensures
        sessions_kept(xs, env) == kept(xs, |x: AuthSession| x.cloud_env == env),
    decreases xs.len(),
{
    if xs.len() > 0 {
        lemma_sessions_kept_is_kept(xs.drop_last(), env);
    }
}

/// The owners `xs` without those a logout drops (see `owners_kept`).
fn keep_owners(xs: Vec<DriveOwner>, env: &CloudEnvironment, id: Option<&str>) -> (r: Vec<DriveOwner>)
    ensures
        r@ == owners_kept(xs@, *env, match id {
            Some(a) => Some(a@),
            None => None,
        }),
{
    let ghost xv = xs@;
    let ghost idv: Option<Seq<char>> = match id {
        Some(a) => Some(a@),
        None => None,
    };
    let mut src = xs;
    let mut out: Vec<DriveOwner> = Vec::new();
    let ghost mut n: int = 0;
    proof {
        assert(xv.take(0) =~= Seq::<DriveOwner>::empty());
    }
    while src.len() > 0
        invariant
            0 <= n <= xv.len(),
            src@ == xv.skip(n),
            out@ == owners_kept(xv.take(n), *env, idv),
            idv == match id {
                Some(a) => Some(a@),
                None => None::<Seq<char>>,
            },
        decreases src.len(),
    {
        let o = src.remove(0);
        proof {
            assert(o == xv[n]);
            assert(src@ =~= xv.skip(n + 1));
            assert(xv.take(n + 1).drop_last() =~= xv.take(n));
        }
        let dropped = same_env(&o.cloud_env, env) && match id {
            Some(a) => same_text(o.home_account_id.as_str(), a),
            None => true,
        };
        if !dropped {
            out.push(o);
        }
        proof {
            n = n + 1;
        }
    }
    proof {
        assert(xv.take(n) =~= xv);
    }
    out
}

/// The sessions `xs` without those of `env` (see `sessions_kept`).
fn keep_sessions(xs: Vec<AuthSession>, env: &CloudEnvironment) -> (r: Vec<AuthSession>)
    ensures
        r@ == sessions_kept(xs@, *env),
{
    let ghost xv = xs@;
    let mut src = xs;
    let mut out: Vec<AuthSession> = Vec::new();
    let ghost mut n: int = 0;
    proof {
        assert(xv.take(0) =~= Seq::<AuthSession>::empty());
    }
    while src.len() > 0
        invariant
            0 <= n <= xv.len(),
            src@ == xv.skip(n),
            out@ == sessions_kept(xv.take(n), *env),
        decreases src.len(),
    {
        let x = src.remove(0);
        proof {
            assert(x == xv[n]);
            assert(src@ =~= xv.skip(n + 1));
            assert(xv.take(n + 1).drop_last() =~= xv.take(n));
        }
        if !same_env(&x.cloud_env, env) {
            out.push(x);
        }
        proof {
            n = n + 1;
        }
    }
    proof {
        assert(xv.take(n) =~= xv);
    }
    out
}

impl AuthModule {
    /// Registers a completed login under its final account id and drive:
    /// the session moves from the id it was opened under to
    /// `home_account_id` (which it then carries), its refresh token, if
    /// any, is kept in the credential store, and a named drive is recorded
    /// as the account's.
    pub fn register_session(&mut self, cloud_env: &CloudEnvironment, session: AuthSession, home_account_id: &str, drive_id: &str)
        requires
            old(self).wf(),
        ensures
            final(self).wf(),
            final(self).session(*cloud_env, home_account_id@) == Some(AuthSession {
                cloud_env: *cloud_env,
                home_account_id: final(self).session(*cloud_env, home_account_id@).unwrap().home_account_id,
                ..session
            }),
            final(self).session(*cloud_env, home_account_id@).unwrap().home_account_id@ == home_account_id@,
            session.home_account_id@ != home_account_id@ ==> final(self).session(*cloud_env, session.home_account_id@) is None,
            forall|e: CloudEnvironment, x: Seq<char>|
                (e, x) != (*cloud_env, home_account_id@) && (e, x) != (*cloud_env, session.home_account_id@)
                    ==> #[trigger] final(self).session(e, x) == old(self).session(e, x),
            drive_id@.len() > 0 ==> final(self).owner(*cloud_env, drive_id@) == Some(home_account_id@),
            forall|e: CloudEnvironment, d: Seq<char>| (drive_id@.len() == 0 || (e, d) != (*cloud_env, drive_id@))
                ==> #[trigger] final(self).owner(e, d) == old(self).owner(e, d),
    {
        let ghost s0 = *self;
        let ghost old_id = session.home_account_id@;
        self.drop_session(cloud_env, session.home_account_id.as_str());
        let ghost s1 = *self;
        let mut s = session;
        s.home_account_id = home_account_id.to_owned();
        s.cloud_env = *cloud_env;
        let store = chars_of(s.refresh_token.as_str()).len() > 0;
        if store {
            let _ = store_refresh_token(cloud_env, home_account_id, s.refresh_token.as_str());
        }
        self.put_session(*cloud_env, home_account_id, s);
        let ghost s2 = *self;
        if chars_of(drive_id).len() > 0 {
            self.put_owner(*cloud_env, drive_id, home_account_id);
        }
        proof {
            assert(self.sessions == s2.sessions);
            assert forall|e: CloudEnvironment, x: Seq<char>|
                (e, x) != (*cloud_env, home_account_id@) && (e, x) != (*cloud_env, old_id)
                    implies #[trigger] self.session(e, x) == s0.session(e, x) by {
                assert(s2.session(e, x) == s1.session(e, x));
                assert(s1.session(e, x) == s0.session(e, x));
            }
            if old_id != home_account_id@ {
                assert(s2.session(*cloud_env, old_id) == s1.session(*cloud_env, old_id));
            }
            assert forall|e: CloudEnvironment, d: Seq<char>| (drive_id@.len() == 0 || (e, d) != (*cloud_env, drive_id@))
                implies #[trigger] self.owner(e, d) == s0.owner(e, d) by {
                assert(s2.drive_to_account == s0.drive_to_account);
            }
        }
    }

    /// Logs out: with an account, its refresh token leaves the credential
    /// store, its session goes and so do the drives it owned in that cloud;
    /// without one, every session and drive of the cloud goes.
    pub fn logout(&mut self, cloud_env: &CloudEnvironment, home_account_id: Option<&str>)
        requires
            old(self).wf(),
        ensures
            final(self).wf(),
            forall|e: CloudEnvironment, d: Seq<char>| #[trigger] final(self).owner(e, d) == match old(self).owner(e, d) {
                Some(a) => if e == *cloud_env && match home_account_id {
                    Some(id) => a == id@,
                    None => true,
                } {
                    None
                } else {
                    Some(a)
                },
                None => None,
            },
            forall|e: CloudEnvironment, x: Seq<char>| #[trigger] final(self).session(e, x) == if e == *cloud_env && match home_account_id {
                Some(id) => x == id@,
                None => true,
            } {
                None
            } else {
                old(self).session(e, x)
            },
    {
        let ghost idv: Option<Seq<char>> = match home_account_id {
            Some(a) => Some(a@),
            None => None,
        };
        let ghost old_o = self.drive_to_account@;
        let mut owners: Vec<DriveOwner> = Vec::new();
        std::mem::swap(&mut owners, &mut self.drive_to_account);
        let kept = keep_owners(owners, cloud_env, home_account_id);
        self.drive_to_account = kept;
        proof {
            lemma_owners_kept(old_o, *cloud_env, idv, (*cloud_env, Seq::empty()));
            assert forall|e: CloudEnvironment, d: Seq<char>| #[trigger] self.owner(e, d) == match old(self).owner(e, d) {
                Some(a) => if e == *cloud_env && match home_account_id {
                    Some(id) => a == id@,
                    None => true,
                } {
                    None
                } else {
                    Some(a)
                },
                None => None,
            } by {
                lemma_owners_kept(old_o, *cloud_env, idv, (e, d));
                lemma_first_key(owner_keys(old_o), (e, d));
                match first_key(owner_keys(old_o), (e, d)) {
                    Some(j) => {
                        assert(owner_keys(old_o)[j] == (e, d));
                    },
                    None => {},
                }
            }
        }
        let ghost mid = *self;
        match home_account_id {
            Some(id) => {
                let _ = delete_refresh_token(cloud_env, id);
                self.drop_session(cloud_env, id);
            },
            None => {
                let ghost old_s = self.sessions@;
                let mut sessions: Vec<AuthSession> = Vec::new();
                std::mem::swap(&mut sessions, &mut self.sessions);
                let kept = keep_sessions(sessions, cloud_env);
                self.sessions = kept;
                proof {
                    lemma_sessions_kept(old_s, *cloud_env, (*cloud_env, Seq::empty()));
                    assert forall|e: CloudEnvironment, x: Seq<char>| #[trigger] self.session(e, x) == if e == *cloud_env {
                        None
                    } else {
                        old(self).session(e, x)
                    } by {
                        lemma_sessions_kept(old_s, *cloud_env, (e, x));
                        lemma_first_key(session_keys(old_s), (e, x));
                    }
                }
            },
        }
        proof {
            assert(self.drive_to_account == mid.drive_to_account);
            assert forall|e: CloudEnvironment, d: Seq<char>| #[trigger] self.owner(e, d) == mid.owner(e, d) by {}
        }
    }
}

// ── Tokens ──────────────────────────────────────────────────────────────

/// What the token endpoint granted.
#[derive(Debug, Clone)]
pub struct TokenGrant {
    pub access_token: String,
    pub refresh_token: Option<String>,
    /// Lifetime of the access token in seconds.
    pub expires_in: i64,
    pub id_token: Option<String>,
}

/// The claims of an ID token that name the user.
#[derive(Debug, Clone)]
pub struct IdTokenClaims {
    pub name: Option<String>,
    pub preferred_username: Option<String>,
    pub oid: Option<String>,
    pub sub: Option<String>,
}

/// Whether a grant's lifetime can be added to `now`: within what a
/// `chrono::Duration` of seconds holds, and the sum within an `i64`.
pub open spec fn lifetime_fits(now: i64, expires_in: i64) -> bool {
    -9223372036854775 <= expires_in <= 9223372036854775 && i64::MIN <= now + expires_in <= i64::MAX
}

/// What a token refresh of an account calls for.
#[derive(Debug, Clone)]
pub enum RefreshPlan {
    /// The access token lasts more than five minutes yet.
    Fresh,
    /// Ask for a new token with this refresh token.
    Refresh(String),
    /// There is no session and no stored refresh token.
    NoSession,
}

/// The refresh-token error text of an account without a session.
pub open spec fn no_account_session() -> Seq<char> {
    "No active session for this account. Please login first."@
}

impl AuthModule {
    /// What refreshing an account's token calls for at `now` (UTC
    /// seconds): nothing while the session's token lasts more than five
    /// minutes; otherwise the session's refresh token, or for an account
    /// without a session the one in the credential store, if any.
    pub fn refresh_plan(&self, cloud_env: &CloudEnvironment, home_account_id: &str, now: i64) -> (p: RefreshPlan)
        ensures
            match self.session(*cloud_env, home_account_id@) {
                Some(s) => if s.expires_at - now > 300 {
                    p is Fresh
                } else {
                    p matches RefreshPlan::Refresh(t) && t == s.refresh_token
                },
                None => !(p is Fresh),
            },
    {
        match find_session(&self.sessions, cloud_env, home_account_id) {
            Some(i) => {
                let s = &self.sessions[i];
                if (s.expires_at as i128) - (now as i128) > 300 {
                    RefreshPlan::Fresh
                } else {
                    RefreshPlan::Refresh(s.refresh_token.clone())
                }
            },
            None => match load_refresh_token(cloud_env, home_account_id) {
                Some(t) => RefreshPlan::Refresh(t),
                None => RefreshPlan::NoSession,
            },
        }
    }

    /// Takes the outcome of a token refresh of an account made with
    /// `used_refresh`: a grant updates the session (opening one named
    /// `Unknown User` if there is none) with the new access token, the new
    /// refresh token or else the one used, and the expiry; a non-empty
    /// refresh token is kept in the credential store. A failure drops the
    /// session and is `Token expired. Please re-login. ({error})`.
    pub fn finish_refresh(
        &mut self,
        cloud_env: &CloudEnvironment,
        home_account_id: &str,
        used_refresh: &str,
        result: Result<TokenGrant, String>,
        now: i64,
    ) -> (r: Result<(), AppError>)
        requires
            old(self).wf(),
            result matches Ok(g) ==> lifetime_fits(now, g.expires_in),
        ensures
            final(self).wf(),
            final(self).drive_to_account == old(self).drive_to_account,
            forall|e: CloudEnvironment, x: Seq<char>| (e, x) != (*cloud_env, home_account_id@) ==> #[trigger] final(self).session(e, x) == old(self).session(e, x),
            match result {
                Ok(g) => {
                    let s = final(self).session(*cloud_env, home_account_id@).unwrap();
                    &&& r is Ok
                    &&& final(self).session(*cloud_env, home_account_id@) is Some
                    &&& s.access_token == g.access_token
                    &&& s.refresh_token@ == match g.refresh_token {
                        Some(t) => t@,
                        None => used_refresh@,
                    }
                    &&& s.expires_at == now + g.expires_in
                    &&& s.client_id@ == crate::auth::client_id_of(*cloud_env)
                    &&& s.cloud_env == *cloud_env
                    &&& s.home_account_id@ == home_account_id@
                    &&& s.display_name@ == match old(self).session(*cloud_env, home_account_id@) {
                        Some(o) => o.display_name@,
                        None => "Unknown User"@,
                    }
                },
                Err(m) => {
                    &&& r matches Err(e) && is_auth_error(e, "Token expired. Please re-login. ("@ + m@ + ")"@, *cloud_env)
                    &&& final(self).session(*cloud_env, home_account_id@) is None
                },
            },
    {
        match result {
            Ok(g) => {
                let expires_at = now + g.expires_in;
                let new_refresh = match g.refresh_token {
                    Some(t) => t,
                    None => used_refresh.to_owned(),
                };
                if chars_of(new_refresh.as_str()).len() > 0 {
                    let _ = store_refresh_token(cloud_env, home_account_id, new_refresh.as_str());
                }
                let display_name = match find_session(&self.sessions, cloud_env, home_account_id) {
                    Some(i) => self.sessions[i].display_name.clone(),
                    None => "Unknown User".to_owned(),
                };
                let session = AuthSession {
                    cloud_env: *cloud_env,
                    client_id: crate::auth::client_id_for(cloud_env),
                    access_token: g.access_token,
                    refresh_token: new_refresh,
                    expires_at,
                    home_account_id: home_account_id.to_owned(),
                    display_name,
                };
                self.put_session(*cloud_env, home_account_id, session);
                Ok(())
            },
            Err(m) => {
                self.drop_session(cloud_env, home_account_id);
                let mut msg: Vec<char> = Vec::new();
                extend_str(&mut msg, "Token expired. Please re-login. (");
                extend_str(&mut msg, m.as_str());
                extend_str(&mut msg, ")");
                Err(AppError::Auth { message: string_of(msg.as_slice()), cloud_env: *cloud_env })
            },
        }
    }

    /// Opens a session from a login's grant at `now`: named by the ID
    /// token's `name`, else `preferred_username`, else `Unknown User`;
    /// keyed by its `oid`, else `sub`, else a fresh random id; without a
    /// refresh token, an empty one. The session is kept and returned.
    pub fn open_session(&mut self, cloud_env: &CloudEnvironment, grant: TokenGrant, claims: Option<IdTokenClaims>, now: i64) -> (s: AuthSession)
        requires
            old(self).wf(),
            lifetime_fits(now, grant.expires_in),
        ensures
            final(self).wf(),
            final(self).drive_to_account == old(self).drive_to_account,
            final(self).session(*cloud_env, s.home_account_id@) == Some(s),
            forall|e: CloudEnvironment, x: Seq<char>| (e, x) != (*cloud_env, s.home_account_id@) ==> #[trigger] final(self).session(e, x) == old(self).session(e, x),
            s.cloud_env == *cloud_env,
            s.client_id@ == crate::auth::client_id_of(*cloud_env),
            s.access_token == grant.access_token,
            s.refresh_token@ == match grant.refresh_token {
                Some(t) => t@,
                None => Seq::empty(),
            },
            s.expires_at == now + grant.expires_in,
            s.display_name@ == match claims {
                Some(c) => match c.name {
                    Some(n) => n@,
                    None => match c.preferred_username {
                        Some(u) => u@,
                        None => "Unknown User"@,
                    },
                },
                None => "Unknown User"@,
            },
            (claims matches Some(c) && c.oid is Some) ==> s.home_account_id == claims.unwrap().oid.unwrap(),
            (claims matches Some(c) && c.oid is None && c.sub is Some) ==> s.home_account_id == claims.unwrap().sub.unwrap(),
    {
        let display_name = match &claims {
            Some(c) => match &c.name {
                Some(n) => n.clone(),
                None => match &c.preferred_username {
                    Some(u) => u.clone(),
                    None => "Unknown User".to_owned(),
                },
            },
            None => "Unknown User".to_owned(),
        };
        let home_account_id = match &claims {
            Some(c) => match &c.oid {
                Some(o) => o.clone(),
                None => match &c.sub {
                    Some(x) => x.clone(),
                    None => crate::engine::new_id(),
                },
            },
            None => crate::engine::new_id(),
        };
        let refresh_token = match grant.refresh_token {
            Some(t) => t,
            None => {
                let e = String::new();
                proof {
                    assert(e@ =~= Seq::<char>::empty());
                }
                e
            },
        };
        let session = AuthSession {
            cloud_env: *cloud_env,
            client_id: crate::auth::client_id_for(cloud_env),
            access_token: grant.access_token,
            refresh_token,
            expires_at: now + grant.expires_in,
            home_account_id: home_account_id.clone(),
            display_name,
        };
        let out = copy_session(&session);
        self.put_session(*cloud_env, home_account_id.as_str(), session);
        out
    }

    /// Records, after an account's session was restored at startup, that it
    /// owns its drive (when the account names one).
    pub fn note_restored(&mut self, account: &AccountEntry)
        requires
            old(self).wf(),
        ensures
            final(self).wf(),
            final(self).sessions == old(self).sessions,
            account.drive_id@.len() > 0 ==> final(self).owner(account.cloud_type, account.drive_id@) == Some(account.home_account_id@),
            forall|e: CloudEnvironment, d: Seq<char>| (account.drive_id@.len() == 0 || (e, d) != (account.cloud_type, account.drive_id@))
                ==> #[trigger] final(self).owner(e, d) == old(self).owner(e, d),
    {
        if chars_of(account.drive_id.as_str()).len() > 0 {
            self.put_owner(account.cloud_type, account.drive_id.as_str(), account.home_account_id.as_str());
        }
    }
}

/// Whether a failed restore is the quiet kind: the account simply has no
/// session to restore.
pub fn is_missing_session(e: &AppError) -> (b: bool)
    ensures
        b == (e matches AppError::Auth { message, .. } && crate::text::contains_seq(message@, "No active session"@)),
{
    match e {
        AppError::Auth { message, .. } => {
            let m = chars_of(message.as_str());
            let needle = chars_of("No active session");
            crate::text::find_chars(m.as_slice(), needle.as_slice()).is_some()
        },
        _ => false,
    }
}

// ── The authorization request ───────────────────────────────────────────

/// A text as a query value: its UTF-8 bytes, every byte but `A-Z a-z 0-9 -
/// _ . ~` as `%XX`.
pub open spec fn query_value(s: Seq<char>) -> Seq<char> {
    crate::encoding::percent_encoded(vstd::utf8::encode_utf8(s), |b: u8| !crate::encoding::is_unreserved_byte(b))
}

/// The scopes asked for: the cloud's, space-separated, and
/// `offline_access` for a refresh token.
pub open spec fn scope_text(scopes: Seq<Seq<char>>) -> Seq<char> {
    crate::text::join(scopes, " "@) + " offline_access"@
}

/// The browser's sign-in address: the authority's authorize endpoint for
/// the authorization-code flow with PKCE (S256), every value encoded.
pub open spec fn authorize_url_of(cfg: CloudConfig, redirect_uri: Seq<char>, state: Seq<char>, challenge: Seq<char>) -> Seq<char> {
    cfg.authority@ + "/oauth2/v2.0/authorize?client_id="@ + query_value(cfg.client_id@) + "&response_type=code&redirect_uri="@
        + query_value(redirect_uri) + "&scope="@ + query_value(scope_text(string_views(cfg.scopes@))) + "&state="@
        + query_value(state) + "&code_challenge="@ + query_value(challenge) + "&code_challenge_method=S256"@
}

/// The scopes of a configuration (see `scope_text`).
fn scopes_of_config(cfg: &CloudConfig) -> (t: String)
    ensures
        t@ == scope_text(string_views(cfg.scopes@)),
{
    let mut parts: Vec<Vec<char>> = Vec::new();
    let mut k: usize = 0;
    while k < cfg.scopes.len()
        invariant
            k <= cfg.scopes@.len(),
            parts.deep_view() == string_views(cfg.scopes@).take(k as int),
        decreases cfg.scopes.len() - k,
    {
        let ghost before = parts.deep_view();
        let c = chars_of(cfg.scopes[k].as_str());
        proof {
            assert(c.deep_view() =~= c@);
        }
        parts.push(c);
        proof {
            assert(parts.deep_view() =~= before.push(cfg.scopes@[k as int]@));
            assert(string_views(cfg.scopes@).take(k + 1) =~= string_views(cfg.scopes@).take(k as int).push(cfg.scopes@[k as int]@));
        }
        k = k + 1;
    }
    proof {
        assert(string_views(cfg.scopes@).take(cfg.scopes@.len() as int) =~= string_views(cfg.scopes@));
    }
    let mut out = crate::text::join_chars(&parts, chars_of(" ").as_slice());
    extend_str(&mut out, " offline_access");
    string_of(out.as_slice())
}

/// The sign-in address for the browser (see `authorize_url_of`).
pub fn authorize_url(cfg: &CloudConfig, redirect_uri: &str, state: &str, challenge: &str) -> (u: String)
    ensures
        u@ == authorize_url_of(*cfg, redirect_uri@, state@, challenge@),
{
    let scopes = scopes_of_config(cfg);
    let mut out: Vec<char> = Vec::new();
    extend_str(&mut out, cfg.authority.as_str());
    extend_str(&mut out, "/oauth2/v2.0/authorize?client_id=");
    extend_str(&mut out, url_encode(cfg.client_id.as_str()).as_str());
    extend_str(&mut out, "&response_type=code&redirect_uri=");
    extend_str(&mut out, url_encode(redirect_uri).as_str());
    extend_str(&mut out, "&scope=");
    extend_str(&mut out, url_encode(scopes.as_str()).as_str());
    extend_str(&mut out, "&state=");
    extend_str(&mut out, url_encode(state).as_str());
    extend_str(&mut out, "&code_challenge=");
    extend_str(&mut out, url_encode(challenge).as_str());
    extend_str(&mut out, "&code_challenge_method=S256");
    string_of(out.as_slice())
}

/// The redirect address of a sign-in on a local port.
pub fn redirect_uri(port: u16) -> (u: String)
    ensures
        u@ == "http://localhost:"@ + crate::transcript::decimal(port as nat),
{
    let mut out: Vec<char> = Vec::new();
    extend_str(&mut out, "http://localhost:");
    extend_chars(&mut out, crate::transcript::decimal_chars(port as u64).as_slice());
    string_of(out.as_slice())
}

/// The token endpoint of a configuration.
pub fn token_url(cfg: &CloudConfig) -> (u: String)
    ensures
        u@ == cfg.authority@ + "/oauth2/v2.0/token"@,
{
    let mut out: Vec<char> = Vec::new();
    extend_str(&mut out, cfg.authority.as_str());
    extend_str(&mut out, "/oauth2/v2.0/token");
    string_of(out.as_slice())
}

/// A form field.
fn field(name: &str, value: &str) -> (f: (String, String))
    ensures
        f.0@ == name@,
        f.1@ == value@,
{
    (name.to_owned(), value.to_owned())
}

/// The view of form fields.
pub open spec fn fields_view(v: Seq<(String, String)>) -> Seq<(Seq<char>, Seq<char>)> {
    v.map_values(|f: (String, String)| (f.0@, f.1@))
}

/// The form that exchanges an authorization code for tokens.
pub fn code_exchange_form(cfg: &CloudConfig, code: &str, redirect_uri: &str, verifier: &str) -> (form: Vec<(String, String)>)
    ensures
        fields_view(form@) == seq![
            ("client_id"@, cfg.client_id@),
            ("grant_type"@, "authorization_code"@),
            ("code"@, code@),
            ("redirect_uri"@, redirect_uri@),
            ("code_verifier"@, verifier@),
            ("scope"@, scope_text(string_views(cfg.scopes@))),
        ],
{
    let scopes = scopes_of_config(cfg);
    let mut form: Vec<(String, String)> = Vec::new();
    form.push(field("client_id", cfg.client_id.as_str()));
    form.push(field("grant_type", "authorization_code"));
    form.push(field("code", code));
    form.push(field("redirect_uri", redirect_uri));
    form.push(field("code_verifier", verifier));
    form.push(field("scope", scopes.as_str()));
    proof {
        assert(fields_view(form@) =~= seq![
            ("client_id"@, cfg.client_id@),
            ("grant_type"@, "authorization_code"@),
            ("code"@, code@),
            ("redirect_uri"@, redirect_uri@),
            ("code_verifier"@, verifier@),
            ("scope"@, scope_text(string_views(cfg.scopes@))),
        ]);
    }
    form
}

/// The form that trades a refresh token for a new access token.
pub fn refresh_form(cfg: &CloudConfig, refresh_token: &str) -> (form: Vec<(String, String)>)
    ensures
        fields_view(form@) == seq![
            ("client_id"@, cfg.client_id@),
            ("grant_type"@, "refresh_token"@),
            ("refresh_token"@, refresh_token@),
            ("scope"@, scope_text(string_views(cfg.scopes@))),
        ],
{
    let scopes = scopes_of_config(cfg);
    let mut form: Vec<(String, String)> = Vec::new();
    form.push(field("client_id", cfg.client_id.as_str()));
    form.push(field("grant_type", "refresh_token"));
    form.push(field("refresh_token", refresh_token));
    form.push(field("scope", scopes.as_str()));
    proof {
        assert(fields_view(form@) =~= seq![
            ("client_id"@, cfg.client_id@),
            ("grant_type"@, "refresh_token"@),
            ("refresh_token"@, refresh_token@),
            ("scope"@, scope_text(string_views(cfg.scopes@))),
        ]);
    }
    form
}

// ── The redirect back from the browser ──────────────────────────────────

/// The query pairs of a URL as the `url` crate parses and decodes them, or
/// the text of its parse error.
pub uninterp spec fn url_query_pairs(url: Seq<char>) -> Result<Seq<(Seq<char>, Seq<char>)>, Seq<char>>;

/// The URL of a callback request's target on the local listener.
pub open spec fn localhost_url(path: Seq<char>) -> Seq<char> {
    "http://localhost"@ + path
}

/// `url::Url::parse` and its `query_pairs`, decoded and in order (see
/// `url_query_pairs`).
#[verifier::external_body]
fn callback_query(url: &str) -> (r: Result<Vec<(String, String)>, String>)
    ensures
        match r {
            Ok(v) => url_query_pairs(url@) == Ok::<Seq<(Seq<char>, Seq<char>)>, Seq<char>>(fields_view(v@)),
            Err(e) => url_query_pairs(url@) == Err::<Seq<(Seq<char>, Seq<char>)>, Seq<char>>(e@),
        },
{
    match url::Url::parse(url) {
        Ok(u) => Ok(u.query_pairs().into_owned().collect()),
        Err(e) => Err(e.to_string()),
    }
}

/// The value a parameter ends up with when the pairs are collected into a
/// map: that of its last pair.
pub open spec fn param_value(pairs: Seq<(Seq<char>, Seq<char>)>, key: Seq<char>) -> Option<Seq<char>>
    decreases pairs.len(),
{
    if pairs.len() == 0 {
        None
    } else if pairs.last().0 == key {
        Some(pairs.last().1)
    } else {
        param_value(pairs.drop_last(), key)
    }
}

/// The value of a parameter (see `param_value`).
fn param(pairs: &Vec<(String, String)>, key: &str) -> (r: Option<String>)
    ensures
        match r {
            Some(v) => param_value(fields_view(pairs@), key@) == Some(v@),
            None => param_value(fields_view(pairs@), key@) is None,
        },
{
    let ghost fv = fields_view(pairs@);
    let mut k: usize = pairs.len();
    proof {
        assert(fv.take(k as int) =~= fv);
    }
    while k > 0
        invariant
            k <= pairs@.len(),
            fv == fields_view(pairs@),
            param_value(fv, key@) == param_value(fv.take(k as int), key@),
        decreases k,
    {
        proof {
            assert(fv.take(k as int).last() == (pairs@[k - 1].0@, pairs@[k - 1].1@));
            assert(fv.take(k as int).drop_last() =~= fv.take(k - 1));
        }
        if same_text(pairs[k - 1].0.as_str(), key) {
            return Some(pairs[k - 1].1.clone());
        }
        k = k - 1;
    }
    proof {
        assert(fv.take(0) =~= Seq::<(Seq<char>, Seq<char>)>::empty());
    }
    None
}

/// The length in bytes that `str::len` reports for a text.
pub open spec fn byte_len(s: Seq<char>) -> nat {
    (vstd::utf8::encode_utf8(s).len() as usize) as nat
}

/// An HTML page as the callback answers it.
pub open spec fn html_response(body: Seq<char>) -> Seq<char> {
    "HTTP/1.1 200 OK\r\nContent-Type: text/html\r\nContent-Length: "@
        + crate::transcript::decimal(byte_len(body)) + "\r\nConnection: close\r\n\r\n"@ + body
}

/// The page shown when sign-in failed.
pub open spec fn failure_page(description: Seq<char>) -> Seq<char> {
    "<html><body><h2>Authentication Failed</h2><p>"@ + description
        + "</p><p>You can close this window.</p></body></html>"@
}

/// The page shown when sign-in succeeded.
pub open spec fn success_page() -> Seq<char> {
    "<html><body><h2>Login Successful!</h2><p>You can close this window and return to ShareOneList.</p></body></html>"@
}

/// What the redirect request says: the authorization code, or why there is
/// none; and the answer to send the browser, if any. The target is the
/// request line's second word; a reported `error` fails with its
/// `error_description` (else the error) and is shown to the user; the
/// `state` must match the one sent; the `code` must be there.
pub open spec fn callback_outcome(request_line: Seq<char>, expected_state: Seq<char>) -> (Result<Seq<char>, Seq<char>>, Option<Seq<char>>) {
    let ws = crate::bridge::words(request_line);
    if ws.len() < 2 {
        (Err("Invalid HTTP request"@), None)
    } else {
        match url_query_pairs(localhost_url(ws[1])) {
            Err(e) => (Err("Failed to parse callback URL: "@ + e), None),
            Ok(pairs) => match param_value(pairs, "error"@) {
                Some(error) => {
                    let description = match param_value(pairs, "error_description"@) {
                        Some(d) => d,
                        None => error,
                    };
                    (Err("Authorization failed: "@ + description), Some(html_response(failure_page(description))))
                },
                None => match param_value(pairs, "state"@) {
                    None => (Err("Missing state parameter in callback"@), None),
                    Some(state) => if state != expected_state {
                        (Err("State mismatch in OAuth callback. Possible CSRF attack."@), None)
                    } else {
                        match param_value(pairs, "code"@) {
                            None => (Err("Missing authorization code in callback"@), None),
                            Some(code) => (Ok(code), Some(html_response(success_page()))),
                        }
                    },
                },
            },
        }
    }
}

/// The view of a callback result.
pub open spec fn callback_view(r: (Result<String, String>, Option<String>)) -> (Result<Seq<char>, Seq<char>>, Option<Seq<char>>) {
    (
        match r.0 {
            Ok(c) => Ok(c@),
            Err(e) => Err(e@),
        },
        match r.1 {
            Some(p) => Some(p@),
            None => None,
        },
    )
}

/// An HTML page as an HTTP response (see `html_response`).
fn html_page(body: &str) -> (r: String)
    ensures
        r@ == html_response(body@),
{
    let mut out: Vec<char> = Vec::new();
    extend_str(&mut out, "HTTP/1.1 200 OK\r\nContent-Type: text/html\r\nContent-Length: ");
    extend_chars(&mut out, crate::transcript::decimal_chars(body.len() as u64).as_slice());
    extend_str(&mut out, "\r\nConnection: close\r\n\r\n");
    extend_str(&mut out, body);
    string_of(out.as_slice())
}

/// Reads the browser's redirect request line (see `callback_outcome`).
pub fn read_callback(request_line: &str, expected_state: &str) -> (r: (Result<String, String>, Option<String>))
    ensures
        callback_view(r) == callback_outcome(request_line@, expected_state@),
{
    let line = chars_of(request_line);
    let ws = crate::bridge::split_words(line.as_slice());
    if ws.len() < 2 {
        return (Err("Invalid HTTP request".to_owned()), None);
    }
    let target = string_of(ws[1].as_slice());
    proof {
        assert(ws.deep_view()[1] == ws@[1]@);
    }
    let mut full: Vec<char> = Vec::new();
    extend_str(&mut full, "http://localhost");
    extend_str(&mut full, target.as_str());
    let url = string_of(full.as_slice());
    let pairs = match callback_query(url.as_str()) {
        Ok(p) => p,
        Err(e) => {
            let mut m: Vec<char> = Vec::new();
            extend_str(&mut m, "Failed to parse callback URL: ");
            extend_str(&mut m, e.as_str());
            return (Err(string_of(m.as_slice())), None);
        },
    };
    match param(&pairs, "error") {
        Some(error) => {
            let description = match param(&pairs, "error_description") {
                Some(d) => d,
                None => error,
            };
            let mut body: Vec<char> = Vec::new();
            extend_str(&mut body, "<html><body><h2>Authentication Failed</h2><p>");
            extend_str(&mut body, description.as_str());
            extend_str(&mut body, "</p><p>You can close this window.</p></body></html>");
            let page = html_page(string_of(body.as_slice()).as_str());
            let mut m: Vec<char> = Vec::new();
            extend_str(&mut m, "Authorization failed: ");
            extend_str(&mut m, description.as_str());
            (Err(string_of(m.as_slice())), Some(page))
        },
        None => match param(&pairs, "state") {
            None => (Err("Missing state parameter in callback".to_owned()), None),
            Some(state) => {
                if !same_text(state.as_str(), expected_state) {
                    (Err("State mismatch in OAuth callback. Possible CSRF attack.".to_owned()), None)
                } else {
                    match param(&pairs, "code") {
                        None => (Err("Missing authorization code in callback".to_owned()), None),
                        Some(code) => {
                            let page = html_page(
                                "<html><body><h2>Login Successful!</h2><p>You can close this window and return to ShareOneList.</p></body></html>",
                            );
                            (Ok(code), Some(page))
                        },
                    }
                }
            },
        },
    }
}

// ── The account list after a login ──────────────────────────────────────

/// The name an account is listed under: the profile's display name where
/// it has a non-empty one, else the session's.
pub fn login_display_name(profile_name: Option<String>, session_name: &str) -> (n: String)
    ensures
        n@ == match profile_name {
            Some(p) => if p@.len() > 0 {
                p@
            } else {
                session_name@
            },
            None => session_name@,
        },
{
    match profile_name {
        Some(p) => if chars_of(p.as_str()).len() > 0 {
            p
        } else {
            session_name.to_owned()
        },
        None => session_name.to_owned(),
    }
}

/// Whether an existing entry is replaced by a login's entry `n`: it is the
/// same account, the same drive, or, by its display name, the same person
/// in the same cloud.
pub open spec fn replaced_by(a: AccountEntry, n: AccountEntry) -> bool {
    a.home_account_id@ == n.home_account_id@ || a.drive_id@ == n.drive_id@
        || (a.cloud_type == n.cloud_type && a.display_name@ == n.display_name@)
}

/// The entries a login keeps, in order.
pub open spec fn accounts_kept(xs: Seq<AccountEntry>, n: AccountEntry) -> Seq<AccountEntry>
    decreases xs.len(),
{
    if xs.len() == 0 {
        Seq::empty()
    } else {
        let r = accounts_kept(xs.drop_last(), n);
        if replaced_by(xs.last(), n) {
            r
        } else {
            r.push(xs.last())
        }
    }
}

/// The first entry of the same account, whose personalization carries over.
pub open spec fn previous_entry(xs: Seq<AccountEntry>, id: Seq<char>) -> Option<AccountEntry>
    decreases xs.len(),
{
    if xs.len() == 0 {
        None
    } else {
        match previous_entry(xs.drop_last(), id) {
            Some(a) => Some(a),
            None => if xs.last().home_account_id@ == id {
                Some(xs.last())
            } else {
                None
            },
        }
    }
}

/// The account list after a login: the entries it replaces (see
/// `replaced_by`) give way to the new entry, appended, which keeps the
/// alias and icon of the account's earlier entry.
pub fn merge_login_account(accounts: Vec<AccountEntry>, entry: AccountEntry) -> (out: Vec<AccountEntry>)
    ensures
        out@ == accounts_kept(accounts@, entry).push(AccountEntry {
            alias: match previous_entry(accounts@, entry.home_account_id@) {
                Some(p) => p.alias,
                None => None,
            },
            icon: match previous_entry(accounts@, entry.home_account_id@) {
                Some(p) => p.icon,
                None => None,
            },
            ..entry
        }),
{
    let ghost av = accounts@;
    let mut src = accounts;
    let mut out: Vec<AccountEntry> = Vec::new();
    let mut alias: Option<String> = None;
    let mut icon: Option<String> = None;
    let mut found = false;
    let ghost mut n: int = 0;
    proof {
        assert(av.take(0) =~= Seq::<AccountEntry>::empty());
    }
    while src.len() > 0
        invariant
            0 <= n <= av.len(),
            src@ == av.skip(n),
            out@ == accounts_kept(av.take(n), entry),
            found == previous_entry(av.take(n), entry.home_account_id@) is Some,
            found ==> alias == previous_entry(av.take(n), entry.home_account_id@).unwrap().alias
                && icon == previous_entry(av.take(n), entry.home_account_id@).unwrap().icon,
            !found ==> alias is None && icon is None,
        decreases src.len(),
    {
        let a = src.remove(0);
        proof {
            assert(a == av[n]);
            assert(src@ =~= av.skip(n + 1));
            assert(av.take(n + 1).drop_last() =~= av.take(n));
        }
        let same_account = same_text(a.home_account_id.as_str(), entry.home_account_id.as_str());
        if !found && same_account {
            found = true;
            alias = copy_opt(&a.alias);
            icon = copy_opt(&a.icon);
        }
        let replaced = same_account || same_text(a.drive_id.as_str(), entry.drive_id.as_str())
            || (same_env(&a.cloud_type, &entry.cloud_type) && same_text(a.display_name.as_str(), entry.display_name.as_str()));
        if !replaced {
            out.push(a);
        }
        proof {
            n = n + 1;
        }
    }
    proof {
        assert(av.take(n) =~= av);
    }
    let mut e = entry;
    e.alias = alias;
    e.icon = icon;
    out.push(e);
    out
}

/// A copy of an optional string.
fn copy_opt(o: &Option<String>) -> (r: Option<String>)
    ensures
        r == *o,
{
    match o {
        Some(s) => Some(s.clone()),
        None => None,
    }
}

/// The error of an account without a session or stored refresh token.
pub fn no_session_error(cloud_env: &CloudEnvironment) -> (e: AppError)
    ensures
        is_auth_error(e, no_account_session(), *cloud_env),
{
    auth_error("No active session for this account. Please login first.", cloud_env)
}

// ── The account list ───────────────────────────────────────────────────

/// Whether logging out removes an entry: the named account, or every
/// account of the cloud where none is named.
pub open spec fn logged_out(a: AccountEntry, env: CloudEnvironment, id: Option<Seq<char>>) -> bool {
    match id {
        Some(i) => a.home_account_id@ == i,
        None => a.cloud_type == env,
    }
}

/// The removal test of a logout (see `logged_out`).
pub open spec fn logout_drops(env: CloudEnvironment, id: Option<Seq<char>>) -> spec_fn(AccountEntry) -> bool {
    |a: AccountEntry| logged_out(a, env, id)
}

/// The account list after logging out (see `logged_out`), in order.
pub fn accounts_after_logout(
    accounts: Vec<AccountEntry>,
    env: &CloudEnvironment,
    home_account_id: Option<&str>,
) -> (out: Vec<AccountEntry>)
    ensures
        out@ == kept(
            accounts@,
            logout_drops(
                *env,
                match home_account_id {
                    Some(i) => Some(i@),
                    None => None,
                },
            ),
        ),
{
    let ghost id = match home_account_id {
        Some(i) => Some(i@),
        None => None::<Seq<char>>,
    };
    let ghost f = logout_drops(*env, id);
    let ghost av = accounts@;
    let mut src = accounts;
    let mut out: Vec<AccountEntry> = Vec::new();
    let ghost mut n: int = 0;
    proof {
        assert(av.take(0) =~= Seq::<AccountEntry>::empty());
    }
    while src.len() > 0
        invariant
            0 <= n <= av.len(),
            src@ == av.skip(n),
            out@ == kept(av.take(n), f),
            f == logout_drops(*env, id),
            id == match home_account_id {
                Some(i) => Some(i@),
                None => None::<Seq<char>>,
            },
        decreases src.len(),
    {
        let a = src.remove(0);
        proof {
            assert(a == av[n]);
            assert(src@ =~= av.skip(n + 1));
            assert(av.take(n + 1).drop_last() =~= av.take(n));
        }
        let drop = match home_account_id {
            Some(i) => same_text(a.home_account_id.as_str(), i),
            None => same_env(&a.cloud_type, env),
        };
        if !drop {
            out.push(a);
        }
        proof {
            n = n + 1;
        }
    }
    proof {
        assert(av.take(n) =~= av);
    }
    out
}

/// The first entry of an account in a cloud.
pub open spec fn entry_index(xs: Seq<AccountEntry>, env: CloudEnvironment, id: Seq<char>) -> Option<int>
    decreases xs.len(),
{
    if xs.len() == 0 {
        None
    } else if xs[0].home_account_id@ == id && xs[0].cloud_type == env {
        Some(0)
    } else {
        match entry_index(xs.drop_first(), env, id) {
            Some(i) => Some(i + 1),
            None => None,
        }
    }
}

fn entry_position(accounts: &Vec<AccountEntry>, env: &CloudEnvironment, id: &str) -> (r: Option<usize>)
    ensures
        match r {
            Some(i) => i < accounts.len() && entry_index(accounts@, *env, id@) == Some(i as int),
            None => entry_index(accounts@, *env, id@) is None,
        },
{
    let mut i: usize = 0;
    proof {
        assert(accounts@.subrange(0, accounts@.len() as int) =~= accounts@);
    }
    while i < accounts.len()
        invariant
            i <= accounts.len(),
            entry_index(accounts@, *env, id@) == (match entry_index(
                accounts@.subrange(i as int, accounts@.len() as int),
                *env,
                id@,
            ) {
                Some(k) => Some(k + i),
                None => None::<int>,
            }),
        decreases accounts.len() - i,
    {
        proof {
            let rest = accounts@.subrange(i as int, accounts@.len() as int);
            assert(rest[0] == accounts@[i as int]);
            assert(rest.drop_first() =~= accounts@.subrange(i + 1, accounts@.len() as int));
        }
        if same_text(accounts[i].home_account_id.as_str(), id) && same_env(&accounts[i].cloud_type, env) {
            return Some(i);
        }
        i = i + 1;
    }
    proof {
        assert(accounts@.subrange(i as int, accounts@.len() as int) =~= Seq::<AccountEntry>::empty());
    }
    None
}

/// A user-set label after an update: `None` leaves it as it was; a value is
/// trimmed, and a blank one resets the label.
pub open spec fn updated_label(current: Option<String>, given: Option<Seq<char>>) -> Option<Seq<char>> {
    match given {
        None => match current {
            Some(c) => Some(c@),
            None => None,
        },
        Some(v) => if crate::text::trim(v).len() == 0 {
            None
        } else {
            Some(crate::text::trim(v))
        },
    }
}

fn apply_label(current: Option<String>, given: Option<String>) -> (r: Option<String>)
    ensures
        match r {
            Some(s) => updated_label(current, match given {
                Some(g) => Some(g@),
                None => None,
            }) == Some(s@),
            None => updated_label(current, match given {
                Some(g) => Some(g@),
                None => None,
            }) is None,
        },
{
    match given {
        None => current,
        Some(v) => {
            let t = crate::text::trim_chars(chars_of(v.as_str()).as_slice());
            if t.len() == 0 {
                None
            } else {
                Some(string_of(t.as_slice()))
            }
        },
    }
}

/// The account list after the user renames an account or picks its icon:
/// the first entry of the account in the cloud gets the new labels (see
/// `updated_label`) and is returned too; an unknown account is refused.
pub fn update_account_labels(
    accounts: Vec<AccountEntry>,
    env: &CloudEnvironment,
    home_account_id: &str,
    alias: Option<String>,
    icon: Option<String>,
) -> (r: Result<(Vec<AccountEntry>, AccountEntry), AppError>)
    ensures
        match entry_index(accounts@, *env, home_account_id@) {
            None => r matches Err(AppError::Validation { message, field }) && message@
                == "Account '"@ + home_account_id@ + "' not found."@ && field@
                == "home_account_id"@,
            Some(i) => r matches Ok((out, e)) && out@ == accounts@.update(i, e)
                && e.home_account_id == accounts@[i].home_account_id && e.drive_id
                == accounts@[i].drive_id && e.cloud_type == accounts@[i].cloud_type
                && e.display_name == accounts@[i].display_name && e.account_type
                == accounts@[i].account_type && match e.alias {
                Some(s) => updated_label(accounts@[i].alias, match alias {
                    Some(g) => Some(g@),
                    None => None,
                }) == Some(s@),
                None => updated_label(accounts@[i].alias, match alias {
                    Some(g) => Some(g@),
                    None => None,
                }) is None,
            } && match e.icon {
                Some(s) => updated_label(accounts@[i].icon, match icon {
                    Some(g) => Some(g@),
                    None => None,
                }) == Some(s@),
                None => updated_label(accounts@[i].icon, match icon {
                    Some(g) => Some(g@),
                    None => None,
                }) is None,
            },
        },
{
    match entry_position(&accounts, env, home_account_id) {
        None => {
            let mut m = chars_of("Account '");
            extend_str(&mut m, home_account_id);
            extend_str(&mut m, "' not found.");
            Err(AppError::Validation { message: string_of(m.as_slice()), field: string_of(chars_of("home_account_id").as_slice()) })
        },
        Some(i) => {
            let mut accounts = accounts;
            let mut e = accounts.remove(i);
            let ghost before = e;
            e.alias = apply_label(e.alias, alias);
            e.icon = apply_label(e.icon, icon);
            let copy = AccountEntry {
                home_account_id: e.home_account_id.clone(),
                drive_id: e.drive_id.clone(),
                cloud_type: e.cloud_type,
                display_name: e.display_name.clone(),
                account_type: e.account_type,
                alias: copy_opt(&e.alias),
                icon: copy_opt(&e.icon),
            };
            accounts.insert(i, e);
            proof {
                assert(copy == e);
            }
            Ok((accounts, copy))
        },
    }
}

/// The account list after re-reading an account's kind: a known kind
/// replaces the stored one, an unknown kind keeps it. Also what is
/// reported: the account's kind after the update, or the kind read where
/// the account has no entry (`None` for the second value).
pub fn apply_account_category(
    accounts: Vec<AccountEntry>,
    env: &CloudEnvironment,
    home_account_id: &str,
    category: Option<AccountCategory>,
) -> (r: (Vec<AccountEntry>, Option<Option<AccountCategory>>))
    ensures
        match entry_index(accounts@, *env, home_account_id@) {
            None => r.0@ == accounts@ && r.1 is None,
            Some(i) => {
                let k = if category is Some { category } else { accounts@[i].account_type };
                &&& r.0@ == accounts@.update(i, AccountEntry { account_type: k, ..accounts@[i] })
                &&& r.1 == Some(k)
            },
        },
{
    match entry_position(&accounts, env, home_account_id) {
        None => (accounts, None),
        Some(i) => {
            let mut accounts = accounts;
            let mut e = accounts.remove(i);
            if category.is_some() {
                e.account_type = category;
            }
            let k = e.account_type;
            accounts.insert(i, e);
            (accounts, Some(k))
        },
    }
}

/// The signed-in user's drive and its kind.
pub fn me_drive_url(base: &str) -> (u: String)
    ensures
        u@ == base@ + "/me/drive?$select=id,driveType"@,
{
    let mut v = chars_of(base);
    extend_str(&mut v, "/me/drive?$select=id,driveType");
    string_of(v.as_slice())
}

/// The signed-in user's display name.
pub fn me_url(base: &str) -> (u: String)
    ensures
        u@ == base@ + "/me?$select=displayName"@,
{
    let mut v = chars_of(base);
    extend_str(&mut v, "/me?$select=displayName");
    string_of(v.as_slice())
}

/// The user's own drive id: an account whose answer names none (or an
/// empty one) has no personal OneDrive.
pub fn own_drive_id(id: Option<String>) -> (r: Result<String, AppError>)
    ensures
        match id {
            Some(d) => if d@.len() > 0 {
                r == Ok::<String, AppError>(d)
            } else {
                r matches Err(AppError::GraphApi { message, status_code }) && status_code == 0
                    && message@ == "The account does not have a personal OneDrive drive"@
            },
            None => r matches Err(AppError::GraphApi { message, status_code }) && status_code == 0
                && message@ == "The account does not have a personal OneDrive drive"@,
        },
{
    match id {
        Some(d) => if chars_of(d.as_str()).len() > 0 {
            Ok(d)
        } else {
            Err(AppError::GraphApi { message: string_of(chars_of("The account does not have a personal OneDrive drive").as_slice()), status_code: 0 })
        },
        None => Err(AppError::GraphApi { message: string_of(chars_of("The account does not have a personal OneDrive drive").as_slice()), status_code: 0 }),
    }
}

} // verus!
