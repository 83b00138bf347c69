//! Cloud endpoints, client identities and the pure parts of the OAuth2
//! PKCE sign-in: verifier and challenge, query encoding, keyring naming and
//! account classification.

use vstd::prelude::*;
use base64::Engine;
use rand::Rng;
use sha2::Digest;
use crate::encoding::{is_unreserved_byte, percent_encode_query, percent_encoded};
use crate::errors::AppError;
use crate::models::{AccountCategory, CloudEnvironment};
use crate::text::{
    chars_eq_str, chars_of, extend_str, lowercase_chars, string_of, trim, trim_chars,
    unicode_lowercase,
};

verus! {

/// Configuration for a specific cloud environment.
#[derive(Debug, Clone)]
pub struct CloudConfig {
    pub authority: String,
    pub graph_base_url: String,
    pub scopes: Vec<String>,
    pub sharepoint_domain: String,
    pub client_id: String,
}

/// Account information returned to the frontend after a successful login.
#[derive(Debug, Clone)]
pub struct AccountInfo {
    pub home_account_id: String,
    pub display_name: String,
    pub drive_id: String,
    pub cloud_env: String,
    pub account_type: Option<AccountCategory>,
}

pub open spec fn authority_of(env: CloudEnvironment) -> Seq<char> {
    match env {
        CloudEnvironment::Global => "https://login.microsoftonline.com/common"@,
        CloudEnvironment::China => "https://login.partner.microsoftonline.cn/organizations"@,
    }
}

pub open spec fn graph_base_of(env: CloudEnvironment) -> Seq<char> {
    match env {
        CloudEnvironment::Global => "https://graph.microsoft.com/v1.0"@,
        CloudEnvironment::China => "https://microsoftgraph.chinacloudapi.cn/v1.0"@,
    }
}

pub open spec fn scopes_of(env: CloudEnvironment) -> Seq<Seq<char>> {
    match env {
        CloudEnvironment::Global => seq![
            "User.Read"@,
            "Files.ReadWrite.All"@,
            "Sites.Read.All"@,
            "Group.Read.All"@,
        ],
        CloudEnvironment::China => seq![
            "https://microsoftgraph.chinacloudapi.cn/User.Read"@,
            "https://microsoftgraph.chinacloudapi.cn/Files.ReadWrite.All"@,
            "https://microsoftgraph.chinacloudapi.cn/Sites.Read.All"@,
            "https://microsoftgraph.chinacloudapi.cn/Group.Read.All"@,
        ],
    }
}

pub open spec fn sharepoint_domain_of(env: CloudEnvironment) -> Seq<char> {
    match env {
        CloudEnvironment::Global => "sharepoint.com"@,
        CloudEnvironment::China => "sharepoint.cn"@,
    }
}

/// The views of a list of strings.
pub open spec fn string_views(v: Seq<String>) -> Seq<Seq<char>> {
    v.map_values(|s: String| s@)
}

/// `cfg` is the configuration of `env` for the application `client_id`.
pub open spec fn is_config_of(cfg: CloudConfig, env: CloudEnvironment, client_id: Seq<char>) -> bool {
    &&& cfg.authority@ == authority_of(env)
    &&& cfg.graph_base_url@ == graph_base_of(env)
    &&& string_views(cfg.scopes@) == scopes_of(env)
    &&& cfg.sharepoint_domain@ == sharepoint_domain_of(env)
    &&& cfg.client_id@ == client_id
}

impl CloudEnvironment {
    /// Returns the cloud-specific configuration for the given client ID.
    pub fn config(&self, client_id: &str) -> (cfg: CloudConfig)
        ensures
            is_config_of(cfg, *self, client_id@),
    {
        let mut scopes: Vec<String> = Vec::new();
        match self {
            CloudEnvironment::Global => {
                scopes.push("User.Read".to_owned());
                scopes.push("Files.ReadWrite.All".to_owned());
                scopes.push("Sites.Read.All".to_owned());
                scopes.push("Group.Read.All".to_owned());
                let cfg = CloudConfig {
                    authority: "https://login.microsoftonline.com/common".to_owned(),
                    graph_base_url: "https://graph.microsoft.com/v1.0".to_owned(),
                    scopes,
                    sharepoint_domain: "sharepoint.com".to_owned(),
                    client_id: client_id.to_owned(),
                };
                proof {
                    assert(string_views(cfg.scopes@) =~= scopes_of(*self));
                }
                cfg
            },
            CloudEnvironment::China => {
                scopes.push("https://microsoftgraph.chinacloudapi.cn/User.Read".to_owned());
                scopes.push("https://microsoftgraph.chinacloudapi.cn/Files.ReadWrite.All".to_owned());
                scopes.push("https://microsoftgraph.chinacloudapi.cn/Sites.Read.All".to_owned());
                scopes.push("https://microsoftgraph.chinacloudapi.cn/Group.Read.All".to_owned());
                let cfg = CloudConfig {
                    authority: "https://login.partner.microsoftonline.cn/organizations".to_owned(),
                    graph_base_url: "https://microsoftgraph.chinacloudapi.cn/v1.0".to_owned(),
                    scopes,
                    sharepoint_domain: "sharepoint.cn".to_owned(),
                    client_id: client_id.to_owned(),
                };
                proof {
                    assert(string_views(cfg.scopes@) =~= scopes_of(*self));
                }
                cfg
            },
        }
    }
}

/// The registered application of each cloud.
pub open spec fn client_id_of(env: CloudEnvironment) -> Seq<char> {
    match env {
        CloudEnvironment::Global => "9e5165d3-7c32-4cf6-bb54-b444bc429ba8"@,
        CloudEnvironment::China => "edbc6b7c-e49c-42bd-8761-c0bc2386856f"@,
    }
}

/// The client ID registered for the given cloud environment.
pub fn client_id_for(cloud_env: &CloudEnvironment) -> (id: String)
    ensures
        id@ == client_id_of(*cloud_env),
{
    match cloud_env {
        CloudEnvironment::Global => "9e5165d3-7c32-4cf6-bb54-b444bc429ba8".to_owned(),
        CloudEnvironment::China => "edbc6b7c-e49c-42bd-8761-c0bc2386856f".to_owned(),
    }
}

/// The configuration of a cloud for this application's own client ID.
pub fn cloud_config(cloud_env: &CloudEnvironment) -> (cfg: CloudConfig)
    ensures
        is_config_of(cfg, *cloud_env, client_id_of(*cloud_env)),
{
    let client_id = client_id_for(cloud_env);
    cloud_env.config(client_id.as_str())
}

/// The lowercase name of a cloud, as stored in settings and keys.
pub open spec fn env_name(env: CloudEnvironment) -> Seq<char> {
    match env {
        CloudEnvironment::Global => "global"@,
        CloudEnvironment::China => "china"@,
    }
}

/// Keyring entry name of the refresh token of an account.
pub open spec fn keyring_key_of(env: CloudEnvironment, home_account_id: Seq<char>) -> Seq<char> {
    "refresh_token_"@ + home_account_id + "_"@ + env_name(env)
}

/// Keyring key for the refresh token of a given account and cloud environment.
pub fn keyring_key(cloud_env: &CloudEnvironment, home_account_id: &str) -> (key: String)
    ensures
        key@ == keyring_key_of(*cloud_env, home_account_id@),
{
    let mut out: Vec<char> = Vec::new();
    extend_str(&mut out, "refresh_token_");
    extend_str(&mut out, home_account_id);
    extend_str(&mut out, "_");
    match cloud_env {
        CloudEnvironment::Global => extend_str(&mut out, "global"),
        CloudEnvironment::China => extend_str(&mut out, "china"),
    }
    string_of(out.as_slice())
}

/// Final account classification: in the China cloud always organizational;
/// otherwise the OneDrive `driveType` (trimmed) decides where it is
/// `personal` or `business`, and the ID-token classification stands.
pub open spec fn reconciled_category(
    env: CloudEnvironment,
    tid_category: Option<AccountCategory>,
    drive_type: Option<Seq<char>>,
) -> Option<AccountCategory> {
    match env {
        CloudEnvironment::China => Some(AccountCategory::Organization),
        CloudEnvironment::Global => match drive_type {
            Some(t) => if trim(t) == "personal"@ {
                Some(AccountCategory::Personal)
            } else if trim(t) == "business"@ {
                Some(AccountCategory::Organization)
            } else {
                tid_category
            },
            None => tid_category,
        },
    }
}

/// Combine the ID-token account classification with the drive type of the
/// signed-in account's OneDrive; the drive type wins where it is known.
pub fn reconcile_account_category(
    env: &CloudEnvironment,
    tid_category: Option<AccountCategory>,
    drive_type: Option<&str>,
) -> (r: Option<AccountCategory>)
    ensures
        r == reconciled_category(
            *env,
            tid_category,
            match drive_type {
                Some(t) => Some(t@),
                None => None,
            },
        ),
{
    match env {
        CloudEnvironment::China => Some(AccountCategory::Organization),
        CloudEnvironment::Global => match drive_type {
            Some(t) => {
                let v = chars_of(t);
                let trimmed = trim_chars(v.as_slice());
                if chars_eq_str(trimmed.as_slice(), "personal") {
                    Some(AccountCategory::Personal)
                } else if chars_eq_str(trimmed.as_slice(), "business") {
                    Some(AccountCategory::Organization)
                } else {
                    tid_category
                }
            },
            None => tid_category,
        },
    }
}

/// The cloud named by `s`, compared after Unicode lowercasing.
pub open spec fn parsed_env(s: Seq<char>) -> Option<CloudEnvironment> {
    if unicode_lowercase(s) == "global"@ {
        Some(CloudEnvironment::Global)
    } else if unicode_lowercase(s) == "china"@ {
        Some(CloudEnvironment::China)
    } else {
        None
    }
}

/// Parse a cloud environment name (`"global"` or `"china"`, any case).
pub fn parse_cloud_env(cloud_env: &str) -> (r: Result<CloudEnvironment, AppError>)
    ensures
        match r {
            Ok(env) => parsed_env(cloud_env@) == Some(env),
            Err(e) => {
                &&& parsed_env(cloud_env@) is None
                &&& e matches AppError::Validation { message, field }
                &&& message@ == "Invalid cloud environment '"@ + cloud_env@
                    + "'. Expected 'global' or 'china'."@
                &&& field@ == "cloud_env"@
            },
        },
{
    let v = chars_of(cloud_env);
    let lower = lowercase_chars(v.as_slice());
    if chars_eq_str(lower.as_slice(), "global") {
        Ok(CloudEnvironment::Global)
    } else if chars_eq_str(lower.as_slice(), "china") {
        Ok(CloudEnvironment::China)
    } else {
        let mut msg: Vec<char> = Vec::new();
        extend_str(&mut msg, "Invalid cloud environment '");
        extend_str(&mut msg, cloud_env);
        extend_str(&mut msg, "'. Expected 'global' or 'china'.");
        Err(AppError::Validation { message: string_of(msg.as_slice()), field: "cloud_env".to_owned() })
    }
}


// ── PKCE ────────────────────────────────────────────────────────────────

/// The characters a PKCE code verifier is drawn from (RFC 7636 unreserved).
pub open spec fn verifier_charset() -> Seq<char> {
    "ABCDEFGHIJKLMNOPQRSTUVWXYZabcdefghijklmnopqrstuvwxyz0123456789-._~"@
}

/// A uniformly chosen integer in `lo..hi`, from the thread-local generator
/// of `rand` (`Rng::gen_range`). Only the range of the result is claimed.
#[verifier::external_body]
fn random_in_range(lo: usize, hi: usize) -> (r: usize)
    requires
        lo < hi,
    ensures
        lo <= r < hi,
{
    rand::thread_rng().gen_range(lo..hi)
}

/// Generates a random PKCE code verifier of 43 to 128 characters drawn
/// from the unreserved characters.
pub fn generate_code_verifier() -> (v: String)
    ensures
        43 <= v@.len() <= 128,
        forall|i: int| 0 <= i < v@.len() ==> verifier_charset().contains(#[trigger] v@[i]),
{
    let charset = chars_of("ABCDEFGHIJKLMNOPQRSTUVWXYZabcdefghijklmnopqrstuvwxyz0123456789-._~");
    proof {
        reveal_strlit("ABCDEFGHIJKLMNOPQRSTUVWXYZabcdefghijklmnopqrstuvwxyz0123456789-._~");
    }
    let length = random_in_range(43, 129);
    let mut out: Vec<char> = Vec::new();
    let mut k: usize = 0;
    while k < length
        invariant
            k <= length <= 128,
            charset@ == verifier_charset(),
            charset@.len() == 66,
            out@.len() == k,
            forall|i: int| 0 <= i < out@.len() ==> verifier_charset().contains(#[trigger] out@[i]),
        decreases length - k,
    {
        let idx = random_in_range(0, charset.len());
        out.push(charset[idx]);
        proof {
            assert(verifier_charset()[idx as int] == out@[k as int]);
        }
        k = k + 1;
    }
    string_of(out.as_slice())
}

/// SHA-256 digest of a byte string (a name for what `sha2` computes).
pub uninterp spec fn sha256_of(data: Seq<u8>) -> Seq<u8>;

/// A digit of the URL-safe base64 alphabet (RFC 4648, section 5):
/// `A-Z`, `a-z`, `0-9`, `-`, `_`.
pub open spec fn base64url_digit(n: int) -> char {
    if n < 26 {
        (65 + n) as char
    } else if n < 52 {
        (71 + n) as char
    } else if n < 62 {
        (n - 4) as char
    } else if n == 62 {
        '-'
    } else {
        '_'
    }
}

/// Unpadded URL-safe base64 text of a byte string, as the `base64` crate's
/// `URL_SAFE_NO_PAD` engine writes it: every three bytes give four digits
/// of six bits each; a last pair of bytes gives three digits and a last
/// single byte two, the unused low bits zero, and no `=` padding.
pub open spec fn base64url_text(data: Seq<u8>) -> Seq<char>
    decreases data.len(),
{
    if data.len() == 0 {
        Seq::empty()
    } else {
        let b0 = data[0] as int;
        if data.len() == 1 {
            seq![base64url_digit(b0 / 4), base64url_digit((b0 % 4) * 16)]
        } else {
            let b1 = data[1] as int;
            if data.len() == 2 {
                seq![
                    base64url_digit(b0 / 4),
                    base64url_digit((b0 % 4) * 16 + b1 / 16),
                    base64url_digit((b1 % 16) * 4),
                ]
            } else {
                let b2 = data[2] as int;
                seq![
                    base64url_digit(b0 / 4),
                    base64url_digit((b0 % 4) * 16 + b1 / 16),
                    base64url_digit((b1 % 16) * 4 + b2 / 64),
                    base64url_digit(b2 % 64),
                ] + base64url_text(data.subrange(3, data.len() as int))
            }
        }
    }
}

/// Bytes that unpadded URL-safe base64 text decodes to, or none where the
/// text is not valid (a name for the `base64` crate's decoder, whose rules
/// on which texts it accepts, trailing bits and padding included, are the
/// crate's).
pub uninterp spec fn base64url_bytes(text: Seq<char>) -> Option<Seq<u8>>;

/// `sha2::Sha256::digest`: the 32-byte SHA-256 digest of `data`.
#[verifier::external_body]
fn sha256(data: &[u8]) -> (out: Vec<u8>)
    ensures
        out@ == sha256_of(data@),
        out@.len() == 32,
{
    sha2::Sha256::digest(data).to_vec()
}

/// `base64`'s `URL_SAFE_NO_PAD.encode`: unpadded URL-safe base64 of `data`
/// (see `base64url_text`).
#[verifier::external_body]
fn base64url_encode(data: &[u8]) -> (out: String)
    ensures
        out@ == base64url_text(data@),
{
    base64::engine::general_purpose::URL_SAFE_NO_PAD.encode(data)
}

/// `base64`'s `URL_SAFE_NO_PAD.decode`: the bytes of unpadded URL-safe
/// base64 text, or `None` where the crate reports a decoding error.
#[verifier::external_body]
fn base64url_decode(text: &str) -> (out: Option<Vec<u8>>)
    ensures
        match out {
            Some(v) => base64url_bytes(text@) == Some(v@),
            None => base64url_bytes(text@) is None,
        },
{
    match base64::engine::general_purpose::URL_SAFE_NO_PAD.decode(text) {
        Ok(v) => Some(v),
        Err(_) => None,
    }
}

/// The PKCE code challenge of a verifier: base64url(sha256(utf8(verifier))).
pub open spec fn code_challenge_of(verifier: Seq<char>) -> Seq<char> {
    base64url_text(sha256_of(vstd::utf8::encode_utf8(verifier)))
}

/// Computes the PKCE code challenge for `verifier`.
pub fn generate_code_challenge(verifier: &str) -> (c: String)
    ensures
        c@ == code_challenge_of(verifier@),
{
    let digest = sha256(verifier.as_bytes());
    base64url_encode(digest.as_slice())
}

/// The payload bytes of a JWT: the token must have exactly three
/// dot-separated parts, and the second must be valid unpadded base64url.
pub open spec fn jwt_payload(token: Seq<char>) -> Option<Seq<u8>> {
    let parts = crate::text::split_char(token, '.');
    if parts.len() != 3 {
        None
    } else {
        base64url_bytes(parts[1])
    }
}

/// Extracts and decodes the payload of a JWT ID token (the claims JSON),
/// without verifying its signature.
pub fn id_token_payload(id_token: &str) -> (out: Option<Vec<u8>>)
    ensures
        match out {
            Some(v) => jwt_payload(id_token@) == Some(v@),
            None => jwt_payload(id_token@) is None,
        },
{
    let v = chars_of(id_token);
    let parts = crate::text::split_chars(v.as_slice(), '.');
    if parts.len() != 3 {
        return None;
    }
    let middle = string_of(parts[1].as_slice());
    proof {
        assert(parts.deep_view()[1] == parts@[1]@);
    }
    base64url_decode(middle.as_str())
}

// ── Query encoding ──────────────────────────────────────────────────────

/// Percent-encodes a string for use in URL query parameters: each UTF-8
/// byte outside `A-Z a-z 0-9 - _ . ~` becomes `%XX` (upper-case hex).
pub fn url_encode(input: &str) -> (out: String)
    ensures
        out@ == percent_encoded(
            vstd::utf8::encode_utf8(input@),
            |b: u8| !is_unreserved_byte(b),
        ),
{
    percent_encode_query(input)
}

} // verus!
