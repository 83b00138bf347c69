//! Application updates: comparing release versions and picking the release
//! asset for this platform.

use vstd::prelude::*;
use crate::errors::AppError;
use crate::models::UpdateInfo;
use crate::text::{
    chars_of, contains_seq, ends_with_chars, extend_str, find_chars, has_suffix,
    lowercase_chars, split_char, split_chars, string_of, trim_char_start, trim_char_start_chars,
    unicode_lowercase,
};

verus! {

/// A downloadable file of a GitHub release.
#[derive(Debug, Clone)]
pub struct GitHubAsset {
    pub name: String,
    pub browser_download_url: String,
}

/// The value of an ASCII digit.
pub open spec fn digit_value(c: char) -> nat {
    (c as nat - '0' as nat) as nat
}

/// The number written by decimal digits.
pub open spec fn digits_value(s: Seq<char>) -> nat
    decreases s.len(),
{
    if s.len() == 0 {
        0
    } else {
        digits_value(s.drop_last()) * 10 + digit_value(s.last())
    }
}

pub open spec fn all_digits(s: Seq<char>) -> bool {
    forall|i: int| 0 <= i < s.len() ==> '0' <= #[trigger] s[i] <= '9'
}

/// `str::parse::<u64>`: an optional `+`, then one or more ASCII digits,
/// whose value fits in a `u64`.
pub open spec fn parsed_u64(s: Seq<char>) -> Option<u64> {
    let d = if s.len() > 0 && s[0] == '+' {
        s.drop_first()
    } else {
        s
    };
    if d.len() > 0 && all_digits(d) && digits_value(d) <= u64::MAX {
        Some(digits_value(d) as u64)
    } else {
        None
    }
}

/// Parses a `u64` as `str::parse` does (see `parsed_u64`).
pub fn parse_u64(s: &[char]) -> (r: Option<u64>)
    ensures
        r == parsed_u64(s@),
{
    let start: usize = if s.len() > 0 && s[0] == '+' {
        1
    } else {
        0
    };
    let ghost d = if s@.len() > 0 && s@[0] == '+' {
        s@.drop_first()
    } else {
        s@
    };
    proof {
        assert(d =~= s@.subrange(start as int, s@.len() as int));
    }
    if start == s.len() {
        return None;
    }
    let mut value: u64 = 0;
    let mut i: usize = start;
    while i < s.len()
        invariant
            start <= i <= s@.len(),
            start < s@.len(),
            d == (if s@.len() > 0 && s@[0] == '+' {
                s@.drop_first()
            } else {
                s@
            }),
            d =~= s@.subrange(start as int, s@.len() as int),
            all_digits(s@.subrange(start as int, i as int)),
            value == digits_value(s@.subrange(start as int, i as int)),
        decreases s.len() - i,
    {
        let c = s[i];
        proof {
            assert(s@.subrange(start as int, i + 1).drop_last() =~= s@.subrange(start as int, i as int));
        }
        if !('0' <= c && c <= '9') {
            proof {
                assert(d[i - start] == c);
                assert(!('0' <= d[i - start] <= '9'));
                assert(!all_digits(d));
            }
            return None;
        }
        let dv = (c as u32 - '0' as u32) as u64;
        if value > (u64::MAX - dv) / 10 {
            proof {
                assert(s@.subrange(start as int, i + 1) =~= d.take((i - start + 1) as int));
                assert(digits_value(s@.subrange(start as int, i + 1)) == value * 10 + dv) by (nonlinear_arith)
                    requires
                        digits_value(s@.subrange(start as int, i + 1)) == digits_value(s@.subrange(start as int, i as int)) * 10 + dv,
                        value == digits_value(s@.subrange(start as int, i as int)),
                ;
                assert(value * 10 + dv > u64::MAX) by (nonlinear_arith)
                    requires
                        value > (u64::MAX - dv) / 10,
                        dv <= 9,
                ;
                if all_digits(d) {
                    lemma_digits_value_prefix_monotone(d, (i - start + 1) as int);
                    assert(digits_value(d) > u64::MAX);
                }
            }
            return None;
        }
        proof {
            assert(value * 10 + dv <= u64::MAX) by (nonlinear_arith)
                requires
                    value <= (u64::MAX - dv) / 10,
                    dv <= 9,
            ;
        }
        value = value * 10 + dv;
        i = i + 1;
    }
    proof {
        assert(s@.subrange(start as int, s@.len() as int) =~= d);
    }
    Some(value)
}

proof fn lemma_digits_value_prefix_monotone(d: Seq<char>, k: int)
    requires
        0 <= k <= d.len(),
        all_digits(d),
    ensures
        digits_value(d.take(k)) <= digits_value(d),
    decreases d.len(),
{
    if k < d.len() {
        assert(d.drop_last().take(k) =~= d.take(k));
        assert(all_digits(d.drop_last())) by {
            assert forall|i: int| 0 <= i < d.drop_last().len() implies '0' <= #[trigger] d.drop_last()[i] <= '9' by {
                assert(d.drop_last()[i] == d[i]);
            }
        }
        lemma_digits_value_prefix_monotone(d.drop_last(), k);
    } else {
        assert(d.take(k) =~= d);
    }
}

/// The numeric components of a version: leading `v`s dropped, split at
/// dots, keeping the pieces that parse as `u64`.
pub open spec fn version_parts(v: Seq<char>) -> Seq<u64> {
    split_char(trim_char_start(v, 'v'), '.').filter(|p: Seq<char>| parsed_u64(p) is Some).map_values(
        |p: Seq<char>| parsed_u64(p)->0,
    )
}

/// Component `i` of a version, zero past its end.
pub open spec fn part_at(parts: Seq<u64>, i: int) -> u64 {
    if 0 <= i < parts.len() {
        parts[i]
    } else {
        0
    }
}

/// Comparison of component lists from index `i` on: the first differing
/// component decides (missing components count as zero).
pub open spec fn newer_from(r: Seq<u64>, l: Seq<u64>, i: nat) -> bool
    decreases (if r.len() > l.len() { r.len() } else { l.len() }) - i,
{
    if i >= r.len() && i >= l.len() {
        false
    } else if part_at(r, i as int) > part_at(l, i as int) {
        true
    } else if part_at(r, i as int) < part_at(l, i as int) {
        false
    } else {
        newer_from(r, l, i + 1)
    }
}

/// `remote` is a newer version than `local`.
pub open spec fn version_newer(remote: Seq<char>, local: Seq<char>) -> bool {
    newer_from(version_parts(remote), version_parts(local), 0)
}

fn version_numbers(v: &str) -> (out: Vec<u64>)
    ensures
        out@ == version_parts(v@),
{
    let c = chars_of(v);
    let t = trim_char_start_chars(c.as_slice(), 'v');
    let pieces = split_chars(t.as_slice(), '.');
    let ghost ps = pieces.deep_view();
    let ghost f = |p: Seq<char>| parsed_u64(p) is Some;
    let mut out: Vec<u64> = Vec::new();
    let mut i: usize = 0;
    while i < pieces.len()
        invariant
            i <= pieces@.len(),
            ps == pieces.deep_view(),
            ps == split_char(trim_char_start(v@, 'v'), '.'),
            f == (|p: Seq<char>| parsed_u64(p) is Some),
            out@ == ps.take(i as int).filter(f).map_values(|p: Seq<char>| parsed_u64(p)->0),
        decreases pieces.len() - i,
    {
        let ghost before = ps.take(i as int).filter(f);
        proof {
            reveal(Seq::filter);
            assert(ps.take(i + 1).drop_last() =~= ps.take(i as int));
            assert(ps[i as int] == pieces@[i as int]@);
        }
        match parse_u64(pieces[i].as_slice()) {
            Some(n) => {
                out.push(n);
                proof {
                    assert(ps.take(i + 1).filter(f) == before.push(ps[i as int]));
                    assert(out@ =~= before.push(ps[i as int]).map_values(|p: Seq<char>| parsed_u64(p)->0));
                }
            },
            None => {},
        }
        i = i + 1;
    }
    proof {
        assert(ps.take(ps.len() as int) =~= ps);
    }
    out
}

/// Compare two version strings such as `2.0.0` and `v2.1.0`: true when
/// `remote` is newer than `local` (see `version_newer`).
pub fn is_newer(remote: &str, local: &str) -> (b: bool)
    ensures
        b == version_newer(remote@, local@),
{
    let r = version_numbers(remote);
    let l = version_numbers(local);
    let n = if r.len() > l.len() {
        r.len()
    } else {
        l.len()
    };
    let mut i: usize = 0;
    while i < n
        invariant
            i <= n,
            n == if r@.len() > l@.len() { r@.len() } else { l@.len() },
            r@ == version_parts(remote@),
            l@ == version_parts(local@),
            newer_from(r@, l@, 0) == newer_from(r@, l@, i as nat),
        decreases n - i,
    {
        let rv = if i < r.len() {
            r[i]
        } else {
            0
        };
        let lv = if i < l.len() {
            l[i]
        } else {
            0
        };
        proof {
            assert(part_at(r@, i as int) == rv);
            assert(part_at(l@, i as int) == lv);
            assert(!(i >= r@.len() && i >= l@.len()));
        }
        if rv > lv {
            return true;
        }
        if rv < lv {
            return false;
        }
        i = i + 1;
    }
    false
}

proof fn lemma_newer_irreflexive(r: Seq<u64>, i: nat)
    ensures
        !newer_from(r, r, i),
    decreases r.len() - i,
{
    if i < r.len() {
        lemma_newer_irreflexive(r, i + 1);
    }
}

proof fn lemma_newer_asymmetric(r: Seq<u64>, l: Seq<u64>, i: nat)
    ensures
        !(newer_from(r, l, i) && newer_from(l, r, i)),
    decreases (if r.len() > l.len() { r.len() } else { l.len() }) - i,
{
    if !(i >= r.len() && i >= l.len()) && part_at(r, i as int) == part_at(l, i as int) {
        lemma_newer_asymmetric(r, l, i + 1);
    }
}

proof fn lemma_newer_transitive(a: Seq<u64>, b: Seq<u64>, c: Seq<u64>, i: nat)
    requires
        newer_from(a, b, i),
        newer_from(b, c, i),
    ensures
        newer_from(a, c, i),
    decreases (if a.len() > b.len() { if a.len() > c.len() { a.len() } else { c.len() } } else { if b.len() > c.len() { b.len() } else { c.len() } }) - i,
{
    if part_at(a, i as int) == part_at(b, i as int) && part_at(b, i as int) == part_at(c, i as int) {
        lemma_newer_transitive(a, b, c, i + 1);
    }
}

/// No version is newer than itself; of two versions at most one is newer
/// than the other; and "newer" is transitive.
pub proof fn lemma_version_order(a: Seq<char>, b: Seq<char>, c: Seq<char>)
    ensures
        !version_newer(a, a),
        !(version_newer(a, b) && version_newer(b, a)),
        version_newer(a, b) && version_newer(b, c) ==> version_newer(a, c),
{
    lemma_newer_irreflexive(version_parts(a), 0);
    lemma_newer_asymmetric(version_parts(a), version_parts(b), 0);
    if version_newer(a, b) && version_newer(b, c) {
        lemma_newer_transitive(version_parts(a), version_parts(b), version_parts(c), 0);
    }
}

// ── Release assets ──────────────────────────────────────────────────────

/// Whether a lowercased asset name qualifies: it contains the architecture
/// fragment when `need_arch`, and ends with `ext` when there is one.
pub open spec fn qualifies(n: Seq<char>, arch: Seq<char>, need_arch: bool, ext: Option<Seq<char>>) -> bool {
    (!need_arch || contains_seq(n, arch)) && match ext {
        Some(e) => has_suffix(n, e),
        None => true,
    }
}

/// Index of the first qualifying name at or after `i`.
pub open spec fn first_from(
    names: Seq<Seq<char>>,
    arch: Seq<char>,
    need_arch: bool,
    ext: Option<Seq<char>>,
    i: int,
) -> Option<int>
    decreases names.len() - i,
{
    if i < 0 || i >= names.len() {
        None
    } else if qualifies(names[i], arch, need_arch, ext) {
        Some(i)
    } else {
        first_from(names, arch, need_arch, ext, i + 1)
    }
}

/// Index of the first name matching an extension, the extensions tried in
/// order of preference.
pub open spec fn by_extension(names: Seq<Seq<char>>, arch: Seq<char>, exts: Seq<Seq<char>>, need_arch: bool) -> Option<int>
    decreases exts.len(),
{
    if exts.len() == 0 {
        None
    } else {
        match first_from(names, arch, need_arch, Some(exts[0]), 0) {
            Some(i) => Some(i),
            None => by_extension(names, arch, exts.drop_first(), need_arch),
        }
    }
}

/// The asset for this platform, compared on lowercased names: an installer
/// for the architecture (extensions in order of preference), else any
/// installer, else any asset for the architecture.
pub open spec fn chosen_asset(lower: Seq<Seq<char>>, arch: Seq<char>, exts: Seq<Seq<char>>) -> Option<int> {
    match by_extension(lower, arch, exts, true) {
        Some(i) => Some(i),
        None => match by_extension(lower, arch, exts, false) {
            Some(i) => Some(i),
            None => first_from(lower, arch, true, None, 0),
        },
    }
}

/// Lowercased names of assets.
pub open spec fn lower_names(assets: Seq<GitHubAsset>) -> Seq<Seq<char>> {
    assets.map_values(|a: GitHubAsset| unicode_lowercase(a.name@))
}

pub open spec fn str_views(v: Seq<&str>) -> Seq<Seq<char>> {
    v.map_values(|s: &str| s@)
}

spec fn old_lower_at(v: Seq<Vec<char>>, q: int) -> Vec<char> {
    v[q]
}

proof fn lemma_first_from_in_range(names: Seq<Seq<char>>, arch: Seq<char>, need_arch: bool, ext: Option<Seq<char>>, i: int)
    ensures
        first_from(names, arch, need_arch, ext, i) matches Some(k) ==> 0 <= k < names.len(),
    decreases names.len() - i,
{
    if 0 <= i < names.len() && !qualifies(names[i], arch, need_arch, ext) {
        lemma_first_from_in_range(names, arch, need_arch, ext, i + 1);
    }
}

proof fn lemma_by_extension_in_range(names: Seq<Seq<char>>, arch: Seq<char>, exts: Seq<Seq<char>>, need_arch: bool)
    ensures
        by_extension(names, arch, exts, need_arch) matches Some(k) ==> 0 <= k < names.len(),
    decreases exts.len(),
{
    if exts.len() > 0 {
        lemma_first_from_in_range(names, arch, need_arch, Some(exts[0]), 0);
        lemma_by_extension_in_range(names, arch, exts.drop_first(), need_arch);
    }
}

fn first_qualifying(
    lower: &Vec<Vec<char>>,
    arch: &[char],
    need_arch: bool,
    ext: Option<&str>,
) -> (r: Option<usize>)
    ensures
        r == match first_from(
            lower.deep_view(),
            arch@,
            need_arch,
            match ext {
                Some(e) => Some(e@),
                None => None,
            },
            0,
        ) {
            Some(i) => Some(i as usize),
            None => None::<usize>,
        },
{
    let ghost names = lower.deep_view();
    let ghost ev = match ext {
        Some(e) => Some(e@),
        None => None,
    };
    let ext_chars: Option<Vec<char>> = match ext {
        Some(e) => Some(chars_of(e)),
        None => None,
    };
    let mut i: usize = 0;
    while i < lower.len()
        invariant
            i <= lower@.len(),
            names == lower.deep_view(),
            ev == match ext {
                Some(e) => Some(e@),
                None => None,
            },
            match ext_chars {
                Some(v) => ev == Some(v@),
                None => ev is None,
            },
            first_from(names, arch@, need_arch, ev, 0) == first_from(names, arch@, need_arch, ev, i as int),
        decreases lower.len() - i,
    {
        let name = lower[i].as_slice();
        proof {
            assert(names[i as int] == lower@[i as int]@);
        }
        let arch_ok = !need_arch || find_chars(name, arch).is_some();
        let ext_ok = match &ext_chars {
            Some(e) => ends_with_chars(name, e.as_slice()),
            None => true,
        };
        if arch_ok && ext_ok {
            return Some(i);
        }
        i = i + 1;
    }
    None
}

fn by_extension_exec(
    lower: &Vec<Vec<char>>,
    arch: &[char],
    exts: &[&str],
    need_arch: bool,
) -> (r: Option<usize>)
    ensures
        r == match by_extension(lower.deep_view(), arch@, str_views(exts@), need_arch) {
            Some(i) => Some(i as usize),
            None => None::<usize>,
        },
{
    let ghost all = str_views(exts@);
    proof {
        assert(all.skip(0) =~= all);
    }
    let mut k: usize = 0;
    while k < exts.len()
        invariant
            k <= exts@.len(),
            all == str_views(exts@),
            by_extension(lower.deep_view(), arch@, all, need_arch) == by_extension(lower.deep_view(), arch@, all.skip(k as int), need_arch),
        decreases exts.len() - k,
    {
        proof {
            assert(all.skip(k as int)[0] == exts@[k as int]@);
            assert(all.skip(k as int).drop_first() =~= all.skip(k + 1));
        }
        match first_qualifying(lower, arch, need_arch, Some(exts[k])) {
            Some(i) => {
                return Some(i);
            },
            None => {},
        }
        k = k + 1;
    }
    proof {
        assert(all.skip(k as int).len() == 0);
    }
    None
}

/// Picks the release asset best suited for a platform (see
/// `chosen_asset`), given its architecture fragment and installer
/// extensions in order of preference.
pub fn select_platform_asset_with_preferences<'a>(
    assets: &'a [GitHubAsset],
    arch_fragment: &str,
    installer_extensions: &[&str],
) -> (r: Option<&'a GitHubAsset>)
    ensures
        match chosen_asset(lower_names(assets@), arch_fragment@, str_views(installer_extensions@)) {
            Some(i) => r matches Some(a) && *a == assets@[i],
            None => r is None,
        },
{
    let mut lower: Vec<Vec<char>> = Vec::new();
    let mut i: usize = 0;
    while i < assets.len()
        invariant
            i <= assets@.len(),
            lower.deep_view() == lower_names(assets@).take(i as int),
        decreases assets.len() - i,
    {
        let l = lowercase_chars(chars_of(assets[i].name.as_str()).as_slice());
        proof {
            assert(l.deep_view() =~= l@);
        }
        let ghost before = lower.deep_view();
        lower.push(l);
        proof {
            assert(lower.deep_view() =~= before.push(l@)) by {
                assert forall|q: int| 0 <= q < lower@.len() implies #[trigger] lower.deep_view()[q] == before.push(l@)[q] by {
                    if q < before.len() {
                        assert(lower@[q] == old_lower_at(lower@, q));
                    }
                }
            }
            assert(lower_names(assets@)[i as int] == unicode_lowercase(assets@[i as int].name@));
            assert(lower.deep_view() =~= lower_names(assets@).take(i + 1));
        }
        i = i + 1;
    }
    proof {
        assert(lower_names(assets@).take(assets@.len() as int) =~= lower_names(assets@));
    }
    let arch = chars_of(arch_fragment);
    let found = match by_extension_exec(&lower, arch.as_slice(), installer_extensions, true) {
        Some(i) => Some(i),
        None => match by_extension_exec(&lower, arch.as_slice(), installer_extensions, false) {
            Some(i) => Some(i),
            None => first_qualifying(&lower, arch.as_slice(), true, None),
        },
    };
    proof {
        lemma_by_extension_in_range(lower.deep_view(), arch@, str_views(installer_extensions@), true);
        lemma_by_extension_in_range(lower.deep_view(), arch@, str_views(installer_extensions@), false);
        lemma_first_from_in_range(lower.deep_view(), arch@, true, None, 0);
    }
    match found {
        Some(i) => {
            proof {
                assert(lower.deep_view().len() == assets@.len());
            }
            Some(&assets[i])
        },
        None => None,
    }
}

/// The update a release offers: none unless its tag (without leading `v`)
/// is a newer version than `current`; the download is the asset chosen for
/// the platform, or empty.
pub fn update_from_release(
    tag_name: &str,
    body: Option<String>,
    assets: &[GitHubAsset],
    current: &str,
    arch_fragment: &str,
    installer_extensions: &[&str],
) -> (r: Option<UpdateInfo>)
    ensures
        match r {
            Some(u) => {
                &&& version_newer(trim_char_start(tag_name@, 'v'), current@)
                &&& u.version@ == trim_char_start(tag_name@, 'v')
                &&& u.changelog@ == match body {
                    Some(b) => b@,
                    None => Seq::empty(),
                }
                &&& u.download_url@ == match chosen_asset(lower_names(assets@), arch_fragment@, str_views(installer_extensions@)) {
                    Some(i) => assets@[i].browser_download_url@,
                    None => Seq::empty(),
                }
            },
            None => !version_newer(trim_char_start(tag_name@, 'v'), current@),
        },
{
    let t = trim_char_start_chars(chars_of(tag_name).as_slice(), 'v');
    let version = string_of(t.as_slice());
    if !is_newer(version.as_str(), current) {
        return None;
    }
    let download_url = match select_platform_asset_with_preferences(assets, arch_fragment, installer_extensions) {
        Some(a) => a.browser_download_url.clone(),
        None => String::new(),
    };
    let changelog = match body {
        Some(b) => b,
        None => String::new(),
    };
    Some(UpdateInfo { version, changelog, download_url })
}

/// The release to install must be the version the user accepted (leading
/// `v`s ignored on both sides).
pub fn check_release_version(release_tag: &str, version: &str) -> (r: Result<(), AppError>)
    ensures
        r is Ok <==> trim_char_start(release_tag@, 'v') == trim_char_start(version@, 'v'),
        r is Err ==> (r matches Err(AppError::Network { message, retryable }) && retryable && message@ == "Version mismatch: expected "@ + version@ + ", got "@ + trim_char_start(release_tag@, 'v')),
{
    let rel = trim_char_start_chars(chars_of(release_tag).as_slice(), 'v');
    let want = trim_char_start_chars(chars_of(version).as_slice(), 'v');
    if crate::text::chars_eq(rel.as_slice(), want.as_slice()) {
        Ok(())
    } else {
        let mut m: Vec<char> = Vec::new();
        extend_str(&mut m, "Version mismatch: expected ");
        extend_str(&mut m, version);
        extend_str(&mut m, ", got ");
        crate::text::extend_chars(&mut m, rel.as_slice());
        Err(AppError::Network { message: string_of(m.as_slice()), retryable: true })
    }
}

/// The architecture fragment that names this platform's release assets,
/// for an operating system and processor as `std::env::consts` names them:
/// `arm64` on Windows on ARM, `aarch64` on Apple silicon, `x64` otherwise.
pub open spec fn arch_fragment(os: Seq<char>, arch: Seq<char>) -> Seq<char> {
    if os == "windows"@ && arch == "aarch64"@ {
        "arm64"@
    } else if os == "macos"@ && arch == "aarch64"@ {
        "aarch64"@
    } else {
        "x64"@
    }
}

/// The architecture fragment for `os` and `arch` (see `arch_fragment`).
pub fn platform_arch_fragment(os: &str, arch: &str) -> (r: &'static str)
    ensures
        r@ == arch_fragment(os@, arch@),
{
    let o = chars_of(os);
    let a = chars_of(arch);
    if crate::text::chars_eq_str(o.as_slice(), "windows") && crate::text::chars_eq_str(
        a.as_slice(),
        "aarch64",
    ) {
        "arm64"
    } else if crate::text::chars_eq_str(o.as_slice(), "macos") && crate::text::chars_eq_str(
        a.as_slice(),
        "aarch64",
    ) {
        "aarch64"
    } else {
        "x64"
    }
}

/// Installer extensions for an operating system, most preferred first:
/// `.msi` then `.exe` on Windows, `.dmg` then `.app` on macOS, none
/// elsewhere.
pub open spec fn installer_extensions(os: Seq<char>) -> Seq<Seq<char>> {
    if os == "windows"@ {
        seq![".msi"@, ".exe"@]
    } else if os == "macos"@ {
        seq![".dmg"@, ".app"@]
    } else {
        Seq::empty()
    }
}

/// The installer extensions for `os` (see `installer_extensions`).
pub fn platform_installer_extensions(os: &str) -> (r: Vec<&'static str>)
    ensures
        str_views(r@) == installer_extensions(os@),
{
    let o = chars_of(os);
    let mut r: Vec<&'static str> = Vec::new();
    if crate::text::chars_eq_str(o.as_slice(), "windows") {
        r.push(".msi");
        r.push(".exe");
    } else if crate::text::chars_eq_str(o.as_slice(), "macos") {
        r.push(".dmg");
        r.push(".app");
    }
    proof {
        assert(str_views(r@) =~= installer_extensions(os@));
    }
    r
}

/// The asset to install for the accepted `version`: the release must carry
/// that version (see `check_release_version`), and the asset is the one
/// chosen for the platform (see `chosen_asset`); a release without such an
/// asset is refused, not worth retrying.
pub fn update_asset<'a>(
    release_tag: &str,
    version: &str,
    assets: &'a [GitHubAsset],
    arch_fragment: &str,
    installer_extensions: &[&str],
) -> (r: Result<&'a GitHubAsset, AppError>)
    ensures
        trim_char_start(release_tag@, 'v') != trim_char_start(version@, 'v') ==> (r matches Err(
            AppError::Network { message, retryable },
        ) && retryable && message@ == "Version mismatch: expected "@ + version@ + ", got "@
            + trim_char_start(release_tag@, 'v')),
        trim_char_start(release_tag@, 'v') == trim_char_start(version@, 'v') ==> match chosen_asset(
            lower_names(assets@),
            arch_fragment@,
            str_views(installer_extensions@),
        ) {
            Some(i) => r matches Ok(a) && *a == assets@[i],
            None => r matches Err(AppError::Network { message, retryable }) && !retryable
                && message@ == "No matching asset found for this platform"@,
        },
{
    match check_release_version(release_tag, version) {
        Err(e) => Err(e),
        Ok(()) => match select_platform_asset_with_preferences(assets, arch_fragment, installer_extensions) {
            Some(a) => Ok(a),
            None => {
                let m = chars_of("No matching asset found for this platform");
                Err(AppError::Network { message: string_of(m.as_slice()), retryable: false })
            },
        },
    }
}

} // verus!
