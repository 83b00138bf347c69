//! The loopback WebDAV gateway's front door: one listener on 127.0.0.1
//! serves every mount under `/m/{mount_id}`; a request must name the
//! loopback host (against DNS rebinding) and carry the gateway's Basic
//! credentials before it reaches a mount. What lies below the mount prefix
//! is the WebDAV handler's.

use vstd::prelude::*;
use base64::Engine;
use crate::mounts::GATEWAY_USERNAME;
use crate::text::{
    chars_eq_str, chars_of, extend_str, find_char, first_index_of, has_prefix, last_index_of,
    rfind_char, slice_chars, starts_with_chars, string_of, trim, trim_char_start,
    trim_char_start_chars, trim_chars,
};

verus! {

/// The only host name the gateway answers to.
pub const LOOPBACK_HOST: &'static str = "127.0.0.1";

/// The challenge sent with a 401.
pub const BASIC_CHALLENGE: &'static str = "Basic realm=\"ShareOneList\", charset=\"UTF-8\"";

/// How many ports upward from the preferred one binding is tried.
pub const PORT_ATTEMPTS: u16 = 50;

/// Name for the bytes the `base64` crate's `STANDARD` engine decodes from a
/// text, or none where the text is not valid padded base64.
pub uninterp spec fn base64_standard_bytes(text: Seq<char>) -> Option<Seq<u8>>;

/// Calls `base64::engine::general_purpose::STANDARD.decode`. The decoder is
/// named, not restated.
#[verifier::external_body]
fn base64_standard_decode(text: &str) -> (r: Option<Vec<u8>>)
    ensures
        match r {
            Some(b) => base64_standard_bytes(text@) == Some(b@),
            None => base64_standard_bytes(text@) is None,
        },
{
    match base64::engine::general_purpose::STANDARD.decode(text) {
        Ok(b) => Some(b),
        Err(_) => None,
    }
}

/// A plain-text answer of the gateway itself.
#[derive(Debug, Clone)]
pub struct PlainResponse {
    pub status: u16,
    pub body: String,
    pub headers: Vec<(String, String)>,
}

/// What the gateway does with a request.
#[derive(Debug, Clone)]
pub enum GatewayDecision {
    /// 403: the request does not address the loopback host.
    HostNotAllowed,
    /// 404: the path is not under `/m/{mount_id}`.
    UnknownPath,
    /// 401: the gateway credentials are missing or wrong.
    Unauthorized,
    /// Hand the request to the mount's handler, if the mount runs.
    Mount(String),
}

/// The host part of a `Host` header: what stands before its last colon.
pub open spec fn host_part(h: Seq<char>) -> Seq<char> {
    match last_index_of(h, ':') {
        Some(i) => h.subrange(0, i),
        None => h,
    }
}

/// Whether a request's `Host` header (absent where it is missing or not
/// visible ASCII) names the loopback address.
pub open spec fn host_allowed_spec(host: Option<Seq<char>>) -> bool {
    match host {
        Some(h) => host_part(h) == LOOPBACK_HOST@,
        None => false,
    }
}

/// Whether the `Host` header names the loopback address, with or without a
/// port (see `host_allowed_spec`).
pub fn host_allowed(host: Option<&str>) -> (b: bool)
    ensures
        b == host_allowed_spec(
            match host {
                Some(h) => Some(h@),
                None => None,
            },
        ),
{
    match host {
        None => false,
        Some(h) => {
            let v = chars_of(h);
            let part = match rfind_char(v.as_slice(), ':') {
                Some(i) => slice_chars(v.as_slice(), 0, i),
                None => v,
            };
            chars_eq_str(part.as_slice(), LOOPBACK_HOST)
        },
    }
}

/// The text up to the first `/` (all of it without one).
pub open spec fn first_piece(s: Seq<char>) -> Seq<char> {
    match first_index_of(s, '/') {
        Some(i) => s.subrange(0, i),
        None => s,
    }
}

/// The text after the first `/` (nothing without one).
pub open spec fn after_first_piece(s: Seq<char>) -> Option<Seq<char>> {
    match first_index_of(s, '/') {
        Some(i) => Some(s.subrange(i + 1, s.len() as int)),
        None => None,
    }
}

/// The mount a path addresses: with leading slashes dropped, the first
/// segment must be `m` and the second, the mount id, must not be empty.
pub open spec fn mount_of_path(path: Seq<char>) -> Option<Seq<char>> {
    let t = trim_char_start(path, '/');
    let scope = first_piece(t);
    let mount = match after_first_piece(t) {
        Some(rest) => first_piece(rest),
        None => Seq::empty(),
    };
    if scope == seq!['m'] && mount.len() > 0 {
        Some(mount)
    } else {
        None
    }
}

fn piece_end(v: &[char]) -> (r: usize)
    ensures
        r <= v.len(),
        (first_index_of(v@, '/') is None) == (r == v.len()),
        match first_index_of(v@, '/') {
            Some(i) => r == i,
            None => r == v.len(),
        },
{
    match find_char(v, '/') {
        Some(i) => i,
        None => v.len(),
    }
}

/// The mount a path addresses (see `mount_of_path`).
pub fn mount_in_path(path: &str) -> (r: Option<String>)
    ensures
        match r {
            Some(m) => mount_of_path(path@) == Some(m@),
            None => mount_of_path(path@) is None,
        },
{
    let t = trim_char_start_chars(chars_of(path).as_slice(), '/');
    let e = piece_end(t.as_slice());
    let scope = slice_chars(t.as_slice(), 0, e);
    let mount = if e < t.len() {
        let rest = slice_chars(t.as_slice(), e + 1, t.len());
        let e2 = piece_end(rest.as_slice());
        slice_chars(rest.as_slice(), 0, e2)
    } else {
        Vec::new()
    };
    proof {
        assert(scope@ =~= first_piece(t@));
        if e < t.len() {
            assert(after_first_piece(t@) == Some(t@.subrange(e + 1, t@.len() as int)));
        } else {
            assert(after_first_piece(t@) is None);
            assert(mount@ =~= Seq::<char>::empty());
        }
    }
    if scope.len() == 1 && scope[0] == 'm' && mount.len() > 0 {
        proof {
            assert(scope@ =~= seq!['m']);
        }
        Some(string_of(mount.as_slice()))
    } else {
        proof {
            assert(scope@ != seq!['m'] || mount@.len() == 0) by {
                if scope@ == seq!['m'] {
                    assert(scope.len() == 1 && scope@[0] == 'm');
                }
            }
        }
        None
    }
}

/// The credentials the gateway accepts: `shareonelist:{password}`.
pub open spec fn gateway_credentials(password: Seq<char>) -> Seq<char> {
    GATEWAY_USERNAME@ + seq![':'] + password
}

/// Whether an `Authorization` header carries the gateway's Basic
/// credentials: after `Basic `, the trimmed base64 text decodes to the
/// UTF-8 bytes of `shareonelist:{password}`.
pub open spec fn authorized_spec(authorization: Option<Seq<char>>, password: Seq<char>) -> bool {
    match authorization {
        Some(a) => has_prefix(a, "Basic "@) && base64_standard_bytes(trim(a.subrange(6, a.len() as int)))
            == Some(vstd::utf8::encode_utf8(gateway_credentials(password))),
        None => false,
    }
}

fn bytes_eq(a: &[u8], b: &[u8]) -> (r: bool)
    ensures
        r == (a@ == b@),
{
    if a.len() != b.len() {
        return false;
    }
    let mut i: usize = 0;
    while i < a.len()
        invariant
            i <= a.len(),
            a.len() == b.len(),
            forall|j: int| 0 <= j < i ==> a@[j] == b@[j],
        decreases a.len() - i,
    {
        if a[i] != b[i] {
            return false;
        }
        i = i + 1;
    }
    proof {
        assert(a@ =~= b@);
    }
    true
}

/// Whether the `Authorization` header carries the gateway's credentials
/// (see `authorized_spec`).
pub fn authorized(authorization: Option<&str>, password: &str) -> (b: bool)
    ensures
        b == authorized_spec(
            match authorization {
                Some(a) => Some(a@),
                None => None,
            },
            password@,
        ),
{
    match authorization {
        None => false,
        Some(a) => {
            let v = chars_of(a);
            let prefix = chars_of("Basic ");
            proof {
                reveal_strlit("Basic ");
            }
            if !starts_with_chars(v.as_slice(), prefix.as_slice()) {
                return false;
            }
            let rest = slice_chars(v.as_slice(), 6, v.len());
            let token = string_of(trim_chars(rest.as_slice()).as_slice());
            match base64_standard_decode(token.as_str()) {
                None => false,
                Some(raw) => {
                    let mut want = chars_of(GATEWAY_USERNAME);
                    want.push(':');
                    extend_str(&mut want, password);
                    let w = string_of(want.as_slice());
                    proof {
                        assert(w@ =~= gateway_credentials(password@));
                    }
                    bytes_eq(raw.as_slice(), w.as_str().as_bytes())
                },
            }
        },
    }
}

/// What the gateway does with a request, checked in order: the host, the
/// path, the credentials.
pub open spec fn gateway_decision_spec(
    host: Option<Seq<char>>,
    path: Seq<char>,
    authorization: Option<Seq<char>>,
    password: Seq<char>,
) -> Option<Option<Seq<char>>> {
    if !host_allowed_spec(host) {
        None
    } else {
        match mount_of_path(path) {
            None => Some(None),
            Some(m) => if authorized_spec(authorization, password) {
                Some(Some(m))
            } else {
                Some(None)
            },
        }
    }
}

/// What the gateway does with a request: refuse a foreign host, refuse a
/// path outside `/m/{mount_id}`, challenge missing or wrong credentials,
/// else hand the request to the mount.
pub fn gateway_decision(host: Option<&str>, path: &str, authorization: Option<&str>, password: &str) -> (d: GatewayDecision)
    ensures
        !host_allowed_spec(
            match host {
                Some(h) => Some(h@),
                None => None,
            },
        ) ==> d is HostNotAllowed,
        host_allowed_spec(
            match host {
                Some(h) => Some(h@),
                None => None,
            },
        ) ==> match mount_of_path(path@) {
            None => d is UnknownPath,
            Some(m) => if authorized_spec(
                match authorization {
                    Some(a) => Some(a@),
                    None => None,
                },
                password@,
            ) {
                d matches GatewayDecision::Mount(id) && id@ == m
            } else {
                d is Unauthorized
            },
        },
{
    if !host_allowed(host) {
        return GatewayDecision::HostNotAllowed;
    }
    match mount_in_path(path) {
        None => GatewayDecision::UnknownPath,
        Some(m) => if authorized(authorization, password) {
            GatewayDecision::Mount(m)
        } else {
            GatewayDecision::Unauthorized
        },
    }
}

/// A plain-text answer with a status and a body.
pub fn plain_response(status: u16, body: &str) -> (r: PlainResponse)
    ensures
        r.status == status,
        r.body@ == body@,
        r.headers@.len() == 1,
        r.headers@[0].0@ == "Content-Type"@,
        r.headers@[0].1@ == "text/plain; charset=utf-8"@,
{
    let mut headers: Vec<(String, String)> = Vec::new();
    headers.push(
        (
            string_of(chars_of("Content-Type").as_slice()),
            string_of(chars_of("text/plain; charset=utf-8").as_slice()),
        ),
    );
    PlainResponse { status, body: string_of(chars_of(body).as_slice()), headers }
}

/// The answer to a request without valid credentials: 401 with a Basic
/// challenge for the `ShareOneList` realm.
pub fn unauthorized() -> (r: PlainResponse)
    ensures
        r.status == 401,
        r.body@ == "authentication required\n"@,
        r.headers@.len() == 2,
        r.headers@[1].0@ == "WWW-Authenticate"@,
        r.headers@[1].1@ == BASIC_CHALLENGE@,
{
    let mut r = plain_response(401, "authentication required\n");
    r.headers.push(
        (string_of(chars_of("WWW-Authenticate").as_slice()), string_of(chars_of(BASIC_CHALLENGE).as_slice())),
    );
    r
}

/// The gateway's own answer to a decision it does not hand on; `None` for a
/// request that goes to a mount.
pub fn decision_response(d: &GatewayDecision) -> (r: Option<PlainResponse>)
    ensures
        d is HostNotAllowed ==> (r matches Some(p) && p.status == 403 && p.body@ == "host not allowed\n"@),
        d is UnknownPath ==> (r matches Some(p) && p.status == 404 && p.body@ == "unknown path\n"@),
        d is Unauthorized ==> (r matches Some(p) && p.status == 401 && p.headers@.len() == 2
            && p.headers@[1].1@ == BASIC_CHALLENGE@),
        d is Mount ==> r is None,
{
    match d {
        GatewayDecision::HostNotAllowed => Some(plain_response(403, "host not allowed\n")),
        GatewayDecision::UnknownPath => Some(plain_response(404, "unknown path\n")),
        GatewayDecision::Unauthorized => Some(unauthorized()),
        GatewayDecision::Mount(_) => None,
    }
}

/// The answer for a path naming a mount that is not running.
pub fn unknown_mount() -> (r: PlainResponse)
    ensures
        r.status == 404,
        r.body@ == "unknown mount\n"@,
{
    plain_response(404, "unknown mount\n")
}

/// The ports binding tries, from the preferred one upward: fifty of them,
/// fewer where the range would pass 65535 (`start..end`).
pub fn port_range(preferred: u16) -> (r: (u16, u16))
    ensures
        r.0 == preferred,
        r.1 == (if preferred as int + 50 > u16::MAX {
            u16::MAX as int
        } else {
            preferred as int + 50
        }),
{
    (preferred, preferred.saturating_add(PORT_ATTEMPTS))
}

/// Without the gateway's credentials a request never reaches a mount: a
/// request that is handed on carried them.
pub proof fn lemma_mounts_need_credentials(
    host: Option<Seq<char>>,
    path: Seq<char>,
    authorization: Option<Seq<char>>,
    password: Seq<char>,
)
    requires
        gateway_decision_spec(host, path, authorization, password) matches Some(Some(_)),
    ensures
        host_allowed_spec(host),
        authorized_spec(authorization, password),
        mount_of_path(path) is Some,
{
}

} // verus!
