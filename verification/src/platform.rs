//! OS-level mount decisions and platform diagnostics for the WebDAV
//! gateway: what a probe of the machine means, which drive letter to map,
//! and how Windows networking error codes are reported.

use vstd::prelude::*;
use crate::text::{
    chars_eq_str, chars_of, extend_str, has_suffix, string_of, trim, trim_char_end,
    trim_char_end_chars, trim_chars, ends_with_chars,
};
use crate::transcript::{decimal, decimal_chars};

verus! {

/// Result of probing the machine for what a WebDAV mount needs.
#[derive(Debug, Clone)]
pub struct Diagnosis {
    pub platform: String,
    /// `running`, `stopped`, `transition`, `not_installed` or `unknown`.
    pub webclient_state: Option<String>,
    /// Registry `BasicAuthLevel`; 1 means HTTPS only, which blocks the
    /// loopback HTTP gateway.
    pub basic_auth_level: Option<u32>,
    /// Registry `FileSizeLimitInBytes` (WebClient per-file transfer cap).
    pub file_size_limit_in_bytes: Option<u64>,
    /// Stable issue codes; the frontend maps each to localized copy.
    pub issues: Vec<String>,
    pub fixable: bool,
}

/// The operating system the app runs on.
#[derive(Debug, Clone, Copy, PartialEq, Eq, Structural)]
pub enum HostPlatform {
    Windows,
    MacOs,
    Other,
}

/// WebClient's default per-file transfer cap.
pub const DEFAULT_FILE_SIZE_LIMIT: u64 = 50000000;

pub open spec fn opt_views(o: Option<String>) -> Option<Seq<char>> {
    match o {
        Some(s) => Some(s@),
        None => None,
    }
}

/// The issue codes a Windows probe reveals, in order: WebClient missing or
/// stopped; Basic auth over HTTP blocked (level below 2, or unset, which
/// means 1); per-file cap below 1 GB (or unset, which means 50 MB).
pub open spec fn windows_issues(
    webclient_state: Option<Seq<char>>,
    basic_auth_level: Option<u32>,
    file_size_limit: Option<u64>,
) -> Seq<Seq<char>> {
    let s1: Seq<Seq<char>> = match webclient_state {
        Some(st) => if st == "not_installed"@ {
            seq!["webclient_not_installed"@]
        } else if st == "stopped"@ {
            seq!["webclient_stopped"@]
        } else {
            Seq::empty()
        },
        None => Seq::empty(),
    };
    let s2 = match basic_auth_level {
        Some(level) => if level < 2 {
            s1.push("basic_auth_blocked"@)
        } else {
            s1
        },
        None => s1.push("basic_auth_blocked"@),
    };
    match file_size_limit {
        Some(limit) => if limit < 1000000000 {
            s2.push("file_size_limited"@)
        } else {
            s2
        },
        None => s2.push("file_size_limited"@),
    }
}

/// What a diagnosis reports on each platform. On Windows it carries the
/// probe, the issues above, the cap defaulted to 50 MB, and is fixable
/// when there are issues and WebClient is installed; macOS needs nothing;
/// other platforms are unsupported.
pub open spec fn is_diagnosis_of(
    d: Diagnosis,
    platform: HostPlatform,
    webclient_state: Option<Seq<char>>,
    basic_auth_level: Option<u32>,
    file_size_limit: Option<u64>,
) -> bool {
    let issues = d.issues@.map_values(|s: String| s@);
    match platform {
        HostPlatform::Windows => {
            &&& d.platform@ == "windows"@
            &&& opt_views(d.webclient_state) == webclient_state
            &&& d.basic_auth_level == basic_auth_level
            &&& d.file_size_limit_in_bytes == Some(
                match file_size_limit {
                    Some(l) => l,
                    None => 50000000u64,
                },
            )
            &&& issues == windows_issues(webclient_state, basic_auth_level, file_size_limit)
            &&& d.fixable == (issues.len() > 0 && !issues.contains("webclient_not_installed"@))
        },
        HostPlatform::MacOs => {
            &&& d.platform@ == "macos"@
            &&& d.webclient_state is None
            &&& d.basic_auth_level is None
            &&& d.file_size_limit_in_bytes is None
            &&& issues.len() == 0
            &&& !d.fixable
        },
        HostPlatform::Other => {
            &&& d.platform@ == "other"@
            &&& d.webclient_state is None
            &&& d.basic_auth_level is None
            &&& d.file_size_limit_in_bytes is None
            &&& issues == seq!["platform_not_supported"@]
            &&& !d.fixable
        },
    }
}

fn push_owned(v: &mut Vec<String>, s: &str)
    ensures
        final(v)@.map_values(|x: String| x@) == old(v)@.map_values(|x: String| x@).push(s@),
{
    v.push(s.to_owned());
    proof {
        assert(v@.map_values(|x: String| x@) =~= old(v)@.map_values(|x: String| x@).push(s@));
    }
}

/// Diagnose what mounting needs on `platform`, given the Windows probe
/// results (WebClient service state and the two WebClient registry values;
/// ignored elsewhere).
pub fn diagnose(
    platform: HostPlatform,
    webclient_state: Option<String>,
    basic_auth_level: Option<u32>,
    file_size_limit: Option<u64>,
) -> (d: Diagnosis)
    ensures
        is_diagnosis_of(
            d,
            platform,
            opt_views(webclient_state),
            basic_auth_level,
            file_size_limit,
        ),
{
    match platform {
        HostPlatform::Windows => {
            let ghost ws = opt_views(webclient_state);
            let mut issues: Vec<String> = Vec::new();
            let mut not_installed = false;
            match &webclient_state {
                Some(st) => {
                    let v = chars_of(st.as_str());
                    if chars_eq_str(v.as_slice(), "not_installed") {
                        push_owned(&mut issues, "webclient_not_installed");
                        not_installed = true;
                    } else if chars_eq_str(v.as_slice(), "stopped") {
                        push_owned(&mut issues, "webclient_stopped");
                    }
                },
                None => {},
            }
            proof {
                let s1: Seq<Seq<char>> = match ws {
                    Some(st) => if st == "not_installed"@ {
                        seq!["webclient_not_installed"@]
                    } else if st == "stopped"@ {
                        seq!["webclient_stopped"@]
                    } else {
                        Seq::empty()
                    },
                    None => Seq::empty(),
                };
                assert(issues@.map_values(|x: String| x@) =~= s1);
            }
            let blocked = match basic_auth_level {
                Some(level) => level < 2,
                None => true,
            };
            if blocked {
                push_owned(&mut issues, "basic_auth_blocked");
            }
            let limited = match file_size_limit {
                Some(limit) => limit < 1000000000,
                None => true,
            };
            if limited {
                push_owned(&mut issues, "file_size_limited");
            }
            let ghost iv = issues@.map_values(|x: String| x@);
            proof {
                reveal_strlit("webclient_not_installed");
                reveal_strlit("basic_auth_blocked");
                reveal_strlit("file_size_limited");
                reveal_strlit("webclient_stopped");
                assert(iv == windows_issues(ws, basic_auth_level, file_size_limit));
                if !not_installed {
                    assert forall|i: int| 0 <= i < iv.len() implies iv[i]
                        != "webclient_not_installed"@ by {
                        if iv[i] == "webclient_not_installed"@ {
                            assert(iv[i].len() == "webclient_not_installed"@.len());
                        }
                    }
                } else {
                    assert(iv[0] == "webclient_not_installed"@);
                }
            }
            let fixable = issues.len() > 0 && !not_installed;
            let limit = match file_size_limit {
                Some(l) => l,
                None => DEFAULT_FILE_SIZE_LIMIT,
            };
            Diagnosis {
                platform: "windows".to_owned(),
                webclient_state,
                basic_auth_level,
                file_size_limit_in_bytes: Some(limit),
                issues,
                fixable,
            }
        },
        HostPlatform::MacOs => {
            let issues: Vec<String> = Vec::new();
            proof {
                assert(issues@.map_values(|x: String| x@) =~= Seq::<Seq<char>>::empty());
            }
            Diagnosis {
                platform: "macos".to_owned(),
                webclient_state: None,
                basic_auth_level: None,
                file_size_limit_in_bytes: None,
                issues,
                fixable: false,
            }
        },
        HostPlatform::Other => {
            let mut issues: Vec<String> = Vec::new();
            push_owned(&mut issues, "platform_not_supported");
            proof {
                assert(issues@.map_values(|x: String| x@) =~= seq!["platform_not_supported"@]);
            }
            Diagnosis {
                platform: "other".to_owned(),
                webclient_state: None,
                basic_auth_level: None,
                file_size_limit_in_bytes: None,
                issues,
                fixable: false,
            }
        },
    }
}

// ── Windows drive mapping ───────────────────────────────────────────────

/// UTF-16 code units of one character.
pub open spec fn utf16_of_char(c: char) -> Seq<u16> {
    if (c as u32) < 0x10000 {
        seq![c as u32 as u16]
    } else {
        let v = (c as u32) - 0x10000;
        seq![(0xD800 + v / 0x400) as u16, (0xDC00 + v % 0x400) as u16]
    }
}

/// UTF-16 code units of a text.
pub open spec fn utf16_of(s: Seq<char>) -> Seq<u16>
    decreases s.len(),
{
    if s.len() == 0 {
        Seq::empty()
    } else {
        utf16_of(s.drop_last()) + utf16_of_char(s.last())
    }
}

/// NUL-terminated UTF-16 text, as Windows wide-string APIs take it.
pub fn wide(s: &str) -> (w: Vec<u16>)
    ensures
        w@ == utf16_of(s@).push(0u16),
{
    let v = chars_of(s);
    let mut out: Vec<u16> = Vec::new();
    let mut i: usize = 0;
    while i < v.len()
        invariant
            i <= v.len(),
            v@ == s@,
            out@ == utf16_of(v@.take(i as int)),
        decreases v.len() - i,
    {
        let c = v[i];
        let code = c as u32;
        if code < 0x10000 {
            out.push(code as u16);
        } else {
            let x = code - 0x10000;
            out.push((0xD800 + x / 0x400) as u16);
            out.push((0xDC00 + x % 0x400) as u16);
        }
        proof {
            let t = v@.take(i + 1);
            assert(t.drop_last() =~= v@.take(i as int));
            assert(t.last() == c);
            assert(out@ =~= utf16_of(v@.take(i as int)) + utf16_of_char(c));
        }
        i = i + 1;
    }
    proof {
        assert(v@.take(v@.len() as int) =~= v@);
    }
    out.push(0u16);
    out
}

/// WebClient UNC name of a mount: `\\127.0.0.1@{port}\m\{mount_id}`.
pub open spec fn remote_name_of(port: u16, mount_id: Seq<char>) -> Seq<char> {
    "\\\\127.0.0.1@"@ + decimal(port as nat) + "\\m\\"@ + mount_id
}

/// WebClient UNC name of a mount (see `remote_name_of`).
pub fn remote_name(port: u16, mount_id: &str) -> (r: String)
    ensures
        r@ == remote_name_of(port, mount_id@),
{
    let mut out: Vec<char> = Vec::new();
    extend_str(&mut out, "\\\\127.0.0.1@");
    let digits = decimal_chars(port as u64);
    crate::text::extend_chars(&mut out, digits.as_slice());
    extend_str(&mut out, "\\m\\");
    extend_str(&mut out, mount_id);
    string_of(out.as_slice())
}

/// Root directory of a drive letter, `{letter}:\`.
pub open spec fn drive_root_of(letter: Seq<char>) -> Seq<char> {
    letter + ":\\"@
}

/// `std::path::Path::exists`: whether the path names something that
/// exists now. Nothing is claimed of the answer, which depends on the
/// machine.
#[verifier::external_body]
fn path_exists(path: &str) -> bool {
    std::path::Path::new(path).exists()
}

/// The root directory of a drive letter (see `drive_root_of`).
pub fn drive_root(letter: &str) -> (p: String)
    ensures
        p@ == drive_root_of(letter@),
{
    let mut out: Vec<char> = Vec::new();
    extend_str(&mut out, letter);
    extend_str(&mut out, ":\\");
    string_of(out.as_slice())
}

/// Whether something is mounted at the drive letter now (its root exists).
pub fn letter_in_use(letter: &str) -> bool {
    let root = drive_root(letter);
    path_exists(root.as_str())
}

/// Unicode uppercase of a text, as `str::to_uppercase` computes it.
pub uninterp spec fn unicode_uppercase(s: Seq<char>) -> Seq<char>;

/// `str::to_uppercase`.
#[verifier::external_body]
fn to_uppercase(s: &str) -> (out: String)
    ensures
        out@ == unicode_uppercase(s@),
{
    s.to_uppercase()
}

/// The letter at position `i` of `A..=Z`.
pub open spec fn letter_at(i: int) -> char {
    ((0x41 + i) as u8) as char
}

/// A requested letter, normalized: trimmed, trailing colons dropped,
/// uppercased.
pub open spec fn normalized_letter(preferred: Seq<char>) -> Seq<char> {
    unicode_uppercase(trim_char_end(trim(preferred), ':'))
}

/// Index in `A..=Z` of a normalized request that is a single ASCII letter.
pub open spec fn requested_index(preferred: Seq<char>) -> Option<int> {
    let l = normalized_letter(preferred);
    if l.len() == 1 && 'A' <= l[0] <= 'Z' {
        Some(l[0] as int - 0x41)
    } else if l.len() == 1 && 'a' <= l[0] <= 'z' {
        Some(l[0] as int - 0x61)
    } else {
        None
    }
}

/// The requested letter, normalized, where it is a free single ASCII letter.
pub open spec fn requested_free(preferred: Option<Seq<char>>, used: Seq<bool>) -> Option<Seq<char>> {
    match preferred {
        Some(p) => match requested_index(p) {
            Some(i) => if !used[i] {
                Some(normalized_letter(p))
            } else {
                None
            },
            None => None,
        },
        None => None,
    }
}

fn requested_letter(preferred: Option<&str>, used: &Vec<bool>) -> (r: Option<String>)
    requires
        used@.len() == 26,
    ensures
        opt_views(r) == requested_free(
            match preferred {
                Some(p) => Some(p@),
                None => None,
            },
            used@,
        ),
{
    match preferred {
        Some(p) => {
            let v = chars_of(p);
            let t = trim_chars(v.as_slice());
            let t2 = trim_char_end_chars(t.as_slice(), ':');
            let s2 = string_of(t2.as_slice());
            let upper = to_uppercase(s2.as_str());
            let u = chars_of(upper.as_str());
            if u.len() == 1 {
                let c = u[0];
                let idx: Option<usize> = if 'A' <= c && c <= 'Z' {
                    Some(((c as u32) - 0x41) as usize)
                } else if 'a' <= c && c <= 'z' {
                    Some(((c as u32) - 0x61) as usize)
                } else {
                    None
                };
                match idx {
                    Some(i) => {
                        if !used[i] {
                            Some(upper)
                        } else {
                            None
                        }
                    },
                    None => None,
                }
            } else {
                None
            }
        },
        None => None,
    }
}

/// The drive letter chosen given which of `A..=Z` are in use: the
/// requested letter if it is a free single ASCII letter (as normalized),
/// else the last free letter of `D..=Z`.
pub open spec fn chosen_letter(preferred: Option<Seq<char>>, used: Seq<bool>) -> Option<Seq<char>> {
    let req = requested_free(preferred, used);
    if req is Some {
        req
    } else if exists|i: int| 3 <= i < 26 && !#[trigger] used[i] {
        let i = choose|i: int|
            3 <= i < 26 && !#[trigger] used[i] && forall|j: int| i < j < 26 ==> #[trigger] used[j];
        Some(seq![letter_at(i)])
    } else {
        None
    }
}

/// Chooses a drive letter (see `chosen_letter`) given `used[i]`, whether
/// the `i`-th letter of `A..=Z` is in use.
pub fn choose_letter(preferred: Option<&str>, used: &Vec<bool>) -> (r: Option<String>)
    requires
        used@.len() == 26,
    ensures
        opt_views(r) == chosen_letter(
            match preferred {
                Some(p) => Some(p@),
                None => None,
            },
            used@,
        ),
{
    match requested_letter(preferred, used) {
        Some(l) => {
            return Some(l);
        },
        None => {},
    }
    let ghost pv = match preferred {
        Some(p) => Some(p@),
        None => None,
    };
    let mut k: usize = 26;
    while k > 3
        invariant
            3 <= k <= 26,
            requested_free(pv, used@) is None,
            pv == match preferred {
                Some(p) => Some(p@),
                None => None,
            },
            used@.len() == 26,
            forall|j: int| k <= j < 26 ==> #[trigger] used@[j],
        decreases k,
    {
        if !used[k - 1] {
            let c = (0x41u8 + (k - 1) as u8) as char;
            let mut out: Vec<char> = Vec::new();
            out.push(c);
            proof {
                let i = (k - 1) as int;
                assert(3 <= i < 26 && !used@[i] && forall|j: int| i < j < 26 ==> #[trigger] used@[j]);
                let w = choose|w: int|
                    3 <= w < 26 && !#[trigger] used@[w] && forall|j: int| w < j < 26 ==> #[trigger] used@[j];
                if w < i {
                    assert(used@[i]);
                } else if w > i {
                    assert(used@[w]);
                }
                assert(out@ =~= seq![letter_at(i)]);
            }
            return Some(string_of(out.as_slice()));
        }
        k = k - 1;
    }
    None
}

/// The view of an optional requested letter.
pub open spec fn preferred_view(p: Option<&str>) -> Option<Seq<char>> {
    match p {
        Some(l) => Some(l@),
        None => None,
    }
}

/// Picks a free drive letter for a new mapping, preferring the requested
/// one and otherwise the last free letter of `D..=Z` (late letters are
/// least likely to be taken by removable drives). Which letters are in use
/// is read from the system, so the result is the choice of `chosen_letter`
/// for the letters in use as they were read.
pub fn pick_letter(preferred: Option<&str>) -> (r: Option<String>)
    ensures
        exists|used: Seq<bool>|
            used.len() == 26 && #[trigger] chosen_letter(preferred_view(preferred), used) == opt_views(r),
{
    let mut used: Vec<bool> = Vec::new();
    let mut i: u8 = 0;
    while i < 26
        invariant
            i <= 26,
            used@.len() == i,
        decreases 26 - i,
    {
        let c = (0x41u8 + i) as char;
        let mut l = String::new();
        crate::text::push_char(&mut l, c);
        used.push(letter_in_use(l.as_str()));
        i = i + 1;
    }
    let r = choose_letter(preferred, &used);
    proof {
        assert(used@.len() == 26);
        assert(chosen_letter(preferred_view(preferred), used@) == opt_views(r));
    }
    r
}

/// What a failed or successful `WNetAddConnection2W` means for a mount:
/// success gives the letter; 5 is WebClient refusing Basic auth over HTTP;
/// 86 and 1326 are rejected credentials; 1208 is WebClient failing.
pub open spec fn mount_outcome(code: u32, letter: Seq<char>) -> Result<Seq<char>, Seq<char>> {
    if code == 0 {
        Ok(letter)
    } else if code == 5 {
        Err("access_denied_check_diagnostics"@)
    } else if code == 86 || code == 1326 {
        Err("invalid_credentials"@)
    } else if code == 1208 {
        Err("webclient_error_check_diagnostics"@)
    } else {
        Err("mount_failed_windows_error_"@ + decimal(code as nat))
    }
}

/// The outcome of mapping a drive (see `mount_outcome`).
pub fn mount_result(code: u32, letter: String) -> (r: Result<String, String>)
    ensures
        match r {
            Ok(l) => mount_outcome(code, letter@) == Ok::<Seq<char>, Seq<char>>(l@),
            Err(e) => mount_outcome(code, letter@) == Err::<Seq<char>, Seq<char>>(e@),
        },
{
    if code == 0 {
        Ok(letter)
    } else if code == 5 {
        Err("access_denied_check_diagnostics".to_owned())
    } else if code == 86 || code == 1326 {
        Err("invalid_credentials".to_owned())
    } else if code == 1208 {
        Err("webclient_error_check_diagnostics".to_owned())
    } else {
        let mut out: Vec<char> = Vec::new();
        extend_str(&mut out, "mount_failed_windows_error_");
        let d = decimal_chars(code as u64);
        crate::text::extend_chars(&mut out, d.as_slice());
        Err(string_of(out.as_slice()))
    }
}

/// What `WNetCancelConnection2W` returning `code` means: success, or 2250
/// (not connected) which also counts as unmounted.
pub open spec fn unmount_outcome(code: u32) -> Result<(), Seq<char>> {
    if code == 0 || code == 2250 {
        Ok(())
    } else {
        Err("unmount_failed_windows_error_"@ + decimal(code as nat))
    }
}

/// The outcome of unmapping a drive (see `unmount_outcome`).
pub fn unmount_result(code: u32) -> (r: Result<(), String>)
    ensures
        match r {
            Ok(()) => unmount_outcome(code) == Ok::<(), Seq<char>>(()),
            Err(e) => unmount_outcome(code) == Err::<(), Seq<char>>(e@),
        },
{
    if code == 0 || code == 2250 {
        Ok(())
    } else {
        let mut out: Vec<char> = Vec::new();
        extend_str(&mut out, "unmount_failed_windows_error_");
        let d = decimal_chars(code as u64);
        crate::text::extend_chars(&mut out, d.as_slice());
        Err(string_of(out.as_slice()))
    }
}

/// Whether the remote path of a mapped drive is the gateway path of the
/// mount: it ends with `\m\{mount_id}`.
pub fn remote_matches_mount(remote: &str, mount_id: &str) -> (r: bool)
    ensures
        r == has_suffix(remote@, "\\m\\"@ + mount_id@),
{
    let mut suffix: Vec<char> = Vec::new();
    extend_str(&mut suffix, "\\m\\");
    extend_str(&mut suffix, mount_id);
    let v = chars_of(remote);
    ends_with_chars(v.as_slice(), suffix.as_slice())
}

} // verus!
