//! Launching and watching `dsh web`: its command line, the port of its URL, the
//! health check's status line, how an exit is described, the per-run bridge token,
//! and release tags.
use crate::text::{
    decimal, digits_value, hex_fixed, parse_unsigned, parses_unsigned, push_char, push_decimal,
    push_hex_fixed, seq_split, seq_starts_with, split_char, starts_with, to_string,
    unsigned_digits,
};
use crate::paths::{file_name_of, plain_component, verbatim, without_share_prefix};
use vstd::prelude::*;

verus! {

/// The port assumed when a URL names none that can be read.
pub const DEFAULT_DSH_PORT: u16 = 3080;

/// The request the health check sends to `dsh web`.
pub const HEALTH_REQUEST: &'static str = "GET /dsh-desktop/health HTTP/1.0\r\nHost: 127.0.0.1\r\n\r\n";

/// Random bytes in a bridge token.
pub const HOST_TOKEN_BYTES: usize = 24;

pub open spec fn texts(v: Seq<String>) -> Seq<Seq<char>> {
    v.map_values(|s: String| s@)
}

/// The arguments `dsh` is started with: the active profile first (never the `web`
/// alias), then the overlay if there is one, then the loopback address and a port
/// chosen by the system.
pub open spec fn web_args(active: Seq<char>, overlay: Option<Seq<char>>) -> Seq<Seq<char>> {
    seq!["--profile"@, active] + match overlay {
        Some(o) => seq!["--patch"@, o],
        None => Seq::empty(),
    } + seq!["--host"@, "127.0.0.1"@, "--port"@, "0"@]
}

pub fn dsh_web_args(active: &str, overlay: Option<&str>) -> (r: Vec<String>)
    ensures
        texts(r@) == web_args(
            active@,
            match overlay {
                Some(o) => Some(o@),
                None => None,
            },
        ),
{
    let mut args: Vec<String> = Vec::new();
    args.push(String::from_str("--profile"));
    args.push(to_string(active));
    if let Some(o) = overlay {
        args.push(String::from_str("--patch"));
        args.push(to_string(o));
    }
    args.push(String::from_str("--host"));
    args.push(String::from_str("127.0.0.1"));
    args.push(String::from_str("--port"));
    args.push(String::from_str("0"));
    let ghost ov = match overlay {
        Some(o) => Some(o@),
        None => None::<Seq<char>>,
    };
    assert(texts(args@) =~= web_args(active@, ov));
    args
}

/// The port of a URL: the text after the last `:` of its authority (the third
/// `/`-separated piece, or the whole text when there are fewer pieces), read as a
/// `u16`; `DEFAULT_DSH_PORT` when that does not read.
pub open spec fn port_of(url: Seq<char>) -> nat {
    let pieces = seq_split(url, '/');
    let authority = if pieces.len() > 2 {
        pieces[2]
    } else {
        url
    };
    let last = seq_split(authority, ':').last();
    if parses_unsigned(last, 65535) {
        digits_value(unsigned_digits(last))
    } else {
        DEFAULT_DSH_PORT as nat
    }
}

pub fn parse_port(url: &str) -> (r: u16)
    ensures
        r == port_of(url@),
{
    let pieces = split_char(url, '/');
    let authority: &str = if pieces.len() > 2 {
        pieces[2]
    } else {
        url
    };
    let parts = split_char(authority, ':');
    proof {
        crate::text::lemma_split_nonempty(authority@, ':');
    }
    let last = parts[parts.len() - 1];
    match parse_unsigned(last, 65535) {
        Some(p) => p as u16,
        None => DEFAULT_DSH_PORT,
    }
}

/// The first line of a health response says `200` (HTTP/1.0 or HTTP/1.1).
pub open spec fn health_ok(status_line: Seq<char>) -> bool {
    seq_starts_with(status_line, "HTTP/1.0 200"@) || seq_starts_with(status_line, "HTTP/1.1 200"@)
}

pub fn health_status_ok(status_line: &str) -> (r: bool)
    ensures
        r == health_ok(status_line@),
{
    starts_with(status_line, "HTTP/1.0 200") || starts_with(status_line, "HTTP/1.1 200")
}

/// A signed number in decimal.
pub open spec fn signed_decimal(v: int) -> Seq<char> {
    if v < 0 {
        seq!['-'] + decimal((-v) as nat)
    } else {
        decimal(v as nat)
    }
}

fn push_signed(out: &mut String, v: i32)
    ensures
        final(out)@ == old(out)@ + signed_decimal(v as int),
{
    if v < 0 {
        push_char(out, '-');
        let magnitude: u128 = (-(v as i64)) as u128;
        push_decimal(out, magnitude);
    } else {
        push_decimal(out, v as u128);
    }
    assert(final(out)@ =~= old(out)@ + signed_decimal(v as int));
}

/// How an exit of `dsh web` is described: by its signal when it was killed by one,
/// else by its exit code, else `unknown`.
pub open spec fn exit_text(signal: Option<i32>, code: Option<i32>) -> Seq<char> {
    match signal {
        Some(s) => "signal "@ + signal_decimal_of(s),
        None => match code {
            Some(c) => "exit code "@ + signal_decimal_of(c),
            None => "unknown"@,
        },
    }
}

pub open spec fn signal_decimal_of(v: i32) -> Seq<char> {
    signed_decimal(v as int)
}

pub fn exit_summary(signal: Option<i32>, code: Option<i32>) -> (r: String)
    ensures
        r@ == exit_text(signal, code),
{
    match signal {
        Some(s) => {
            let mut out = String::from_str("signal ");
            push_signed(&mut out, s);
            out
        },
        None => match code {
            Some(c) => {
                let mut out = String::from_str("exit code ");
                push_signed(&mut out, c);
                out
            },
            None => String::from_str("unknown"),
        },
    }
}

/// Fills `dest` with random bytes from the system's source (`getrandom::getrandom`);
/// `false` when the source failed. The bytes are left unstated: they are random.
#[verifier::external_body]
fn fill_random(dest: &mut Vec<u8>) -> (ok: bool)
    ensures
        final(dest)@.len() == old(dest)@.len(),
{
    getrandom::getrandom(dest.as_mut_slice()).is_ok()
}

/// Bytes as lowercase hexadecimal, two digits each.
pub open spec fn hex_bytes(b: Seq<u8>) -> Seq<char>
    decreases b.len(),
{
    if b.len() == 0 {
        Seq::empty()
    } else {
        hex_bytes(b.drop_last()) + hex_fixed(b.last() as nat, 2)
    }
}

pub fn hex_encode(bytes: &[u8]) -> (r: String)
    ensures
        r@ == hex_bytes(bytes@),
{
    let mut out = String::new();
    let mut i: usize = 0;
    while i < bytes.len()
        invariant
            i <= bytes@.len(),
            out@ == hex_bytes(bytes@.take(i as int)),
        decreases bytes@.len() - i,
    {
        push_hex_fixed(&mut out, bytes[i] as u64, 2);
        assert(bytes@.take(i + 1).drop_last() =~= bytes@.take(i as int));
        i = i + 1;
    }
    assert(bytes@.take(bytes@.len() as int) =~= bytes@);
    out
}

/// A fresh token that lets `dsh web` pages reach the bridge: 24 random bytes in
/// hexadecimal; `None` when the system's random source fails.
pub fn generate_host_token() -> (r: Option<String>)
    ensures
        r matches Some(t) ==> exists|b: Seq<u8>| b.len() == HOST_TOKEN_BYTES && t@ == hex_bytes(b),
{
    let mut bytes: Vec<u8> = Vec::new();
    let mut i: usize = 0;
    while i < HOST_TOKEN_BYTES
        invariant
            i <= HOST_TOKEN_BYTES,
            bytes@.len() == i,
        decreases HOST_TOKEN_BYTES - i,
    {
        bytes.push(0);
        i = i + 1;
    }
    if !fill_random(&mut bytes) {
        return None;
    }
    Some(hex_encode(bytes.as_slice()))
}

#[verifier::external_type_specification]
#[verifier::external_body]
pub struct ExSemverError(semver::Error);

/// A semantic version as the shell compares it: its three numbers, then its
/// pre-release and build texts (empty when absent).
#[derive(Debug, Clone, PartialEq, Eq)]
pub struct SemVersion {
    pub major: u64,
    pub minor: u64,
    pub patch: u64,
    pub pre: String,
    pub build: String,
}

/// The parts of a version as plain values.
pub type VersionParts = (u64, u64, u64, Seq<char>, Seq<char>);

impl SemVersion {
    pub open spec fn parts(&self) -> VersionParts {
        (self.major, self.minor, self.patch, self.pre@, self.build@)
    }
}

/// What `semver::Version::parse` makes of a text: its parts, or nothing where it
/// refuses the text.
pub uninterp spec fn semver_parse(text: Seq<char>) -> Option<VersionParts>;

/// `semver::Version::parse`, the version taken apart into its fields.
#[verifier::external_body]
fn parse_semver(text: &str) -> (r: Result<SemVersion, semver::Error>)
    ensures
        match semver_parse(text@) {
            Some(p) => r matches Ok(v) && v.parts() == p,
            None => r is Err,
        },
{
    match semver::Version::parse(text) {
        Ok(v) => Ok(SemVersion {
            major: v.major,
            minor: v.minor,
            patch: v.patch,
            pre: v.pre.as_str().to_string(),
            build: v.build.as_str().to_string(),
        }),
        Err(e) => Err(e),
    }
}

/// The message of a `semver::Error` (its `Display`); nothing is stated of the text.
#[verifier::external_body]
fn semver_error_text(e: &semver::Error) -> (r: String) {
    e.to_string()
}

/// How `semver::Prerelease` orders two pre-release texts: -1, 0 or 1 for less,
/// equal and greater; 0 where `semver` refuses either text as a pre-release.
pub uninterp spec fn prerelease_order(a: Seq<char>, b: Seq<char>) -> i8;

/// How `semver::BuildMetadata` orders two build texts: -1, 0 or 1 for less, equal
/// and greater; 0 where `semver` refuses either text as build metadata.
pub uninterp spec fn build_order(a: Seq<char>, b: Seq<char>) -> i8;

/// `Ord::cmp` of `semver::Prerelease` on the pre-release texts `a` and `b`; a text
/// compares equal to itself.
#[verifier::external_body]
fn prerelease_order_of(a: &str, b: &str) -> (r: i8)
    ensures
        r == prerelease_order(a@, b@),
        a@ == b@ ==> r == 0,
{
    match (semver::Prerelease::new(a), semver::Prerelease::new(b)) {
        (Ok(x), Ok(y)) => match x.cmp(&y) {
            std::cmp::Ordering::Less => -1,
            std::cmp::Ordering::Equal => 0,
            std::cmp::Ordering::Greater => 1,
        },
        _ => 0,
    }
}

/// `Ord::cmp` of `semver::BuildMetadata` on the build texts `a` and `b`; a text
/// compares equal to itself.
#[verifier::external_body]
fn build_order_of(a: &str, b: &str) -> (r: i8)
    ensures
        r == build_order(a@, b@),
        a@ == b@ ==> r == 0,
{
    match (semver::BuildMetadata::new(a), semver::BuildMetadata::new(b)) {
        (Ok(x), Ok(y)) => match x.cmp(&y) {
            std::cmp::Ordering::Less => -1,
            std::cmp::Ordering::Equal => 0,
            std::cmp::Ordering::Greater => 1,
        },
        _ => 0,
    }
}

/// `semver::Version`'s order (the fields in turn: major, minor, patch, pre-release,
/// build): whether `a` comes after `b`.
pub open spec fn version_above(a: VersionParts, b: VersionParts) -> bool {
    if a.0 != b.0 {
        a.0 > b.0
    } else if a.1 != b.1 {
        a.1 > b.1
    } else if a.2 != b.2 {
        a.2 > b.2
    } else if prerelease_order(a.3, b.3) != 0 {
        prerelease_order(a.3, b.3) > 0
    } else {
        build_order(a.4, b.4) > 0
    }
}

/// Whether version `a` comes after version `b`; no version comes after itself.
pub fn is_newer(a: &SemVersion, b: &SemVersion) -> (r: bool)
    ensures
        r == version_above(a.parts(), b.parts()),
        a.parts() == b.parts() ==> !r,
        a.major != b.major ==> r == (a.major > b.major),
        a.major == b.major && a.minor != b.minor ==> r == (a.minor > b.minor),
        a.major == b.major && a.minor == b.minor && a.patch != b.patch ==> r == (a.patch > b.patch),
{
    if a.major != b.major {
        a.major > b.major
    } else if a.minor != b.minor {
        a.minor > b.minor
    } else if a.patch != b.patch {
        a.patch > b.patch
    } else {
        let pre = prerelease_order_of(a.pre.as_str(), b.pre.as_str());
        if pre != 0 {
            pre > 0
        } else {
            build_order_of(a.build.as_str(), b.build.as_str()) > 0
        }
    }
}

/// Versions are ordered by their numbers first, major before minor before patch:
/// a larger number at the first place where they differ makes the newer version,
/// whatever the pre-release and build texts are.
pub proof fn law_version_numbers_decide(a: VersionParts, b: VersionParts)
    ensures
        a.0 > b.0 ==> version_above(a, b) && !version_above(b, a),
        a.0 == b.0 && a.1 > b.1 ==> version_above(a, b) && !version_above(b, a),
        a.0 == b.0 && a.1 == b.1 && a.2 > b.2 ==> version_above(a, b) && !version_above(b, a),
{
}

/// A release tag with larger numbers than the running version is offered as an
/// update, one with smaller numbers is not.
pub proof fn law_higher_release_is_offered(p: VersionParts, current: VersionParts)
    ensures
        (p.0, p.1, p.2) != (current.0, current.1, current.2) ==> (version_above(p, current) <==> (
        p.0 > current.0 || (p.0 == current.0 && (p.1 > current.1 || (p.1 == current.1 && p.2
            > current.2))))),
{
}

/// A tag without its leading `v`s.
pub open spec fn strip_v(tag: Seq<char>) -> Seq<char>
    decreases tag.len(),
{
    if tag.len() > 0 && tag[0] == 'v' {
        strip_v(tag.drop_first())
    } else {
        tag
    }
}

proof fn lemma_strip_v_skip(s: Seq<char>, i: int)
    requires
        0 <= i <= s.len(),
        forall|j: int| 0 <= j < i ==> #[trigger] s[j] == 'v',
    ensures
        strip_v(s) == strip_v(s.skip(i)),
    decreases i,
{
    if i > 0 {
        assert(s.drop_first().skip(i - 1) =~= s.skip(i));
        lemma_strip_v_skip(s.drop_first(), i - 1);
    } else {
        assert(s.skip(0) =~= s);
    }
}

/// The message of a release tag that is no version.
pub open spec fn bad_tag_message(tag: Seq<char>, m: Seq<char>) -> bool {
    exists|detail: Seq<char>| m == "解析远程版本 "@ + tag + " 失败: "@ + detail
}

/// Reads a release tag such as `v0.1.0` as a semantic version.
pub fn parse_release_tag(tag: &str) -> (r: Result<SemVersion, String>)
    ensures
        match semver_parse(strip_v(tag@)) {
            Some(p) => r matches Ok(v) && v.parts() == p,
            None => r matches Err(m) && bad_tag_message(tag@, m@),
        },
{
    let n = tag.unicode_len();
    let mut i: usize = 0;
    while i < n && tag.get_char(i) == 'v'
        invariant
            n == tag@.len(),
            i <= n,
            forall|j: int| 0 <= j < i ==> #[trigger] tag@[j] == 'v',
        decreases n - i,
    {
        i = i + 1;
    }
    proof {
        lemma_strip_v_skip(tag@, i as int);
        assert(strip_v(tag@.skip(i as int)) == tag@.skip(i as int));
    }
    let text = tag.substring_char(i, n);
    assert(text@ =~= tag@.skip(i as int));
    match parse_semver(text) {
        Ok(v) => Ok(v),
        Err(e) => {
            let detail = semver_error_text(&e);
            let mut m = String::from_str("解析远程版本 ");
            m.append(tag);
            m.append(" 失败: ");
            m.append(detail.as_str());
            assert(m@ == "解析远程版本 "@ + tag@ + " 失败: "@ + detail@);
            Err(m)
        },
    }
}

/// Whether a release tag names a version newer than `current`: the tag when it
/// does, nothing when it does not, and the parse error when the tag is no version.
/// The running version itself is never offered.
pub fn update_available(tag: &str, current: &SemVersion) -> (r: Result<Option<String>, String>)
    ensures
        semver_parse(strip_v(tag@)) == Some(current.parts()) ==> r matches Ok(None),
        match semver_parse(strip_v(tag@)) {
            Some(p) => r matches Ok(o) && (o is Some <==> version_above(p, current.parts())) && (
            o matches Some(t) ==> t@ == tag@),
            None => r matches Err(m) && bad_tag_message(tag@, m@),
        },
{
    match parse_release_tag(tag) {
        Ok(remote) => {
            if is_newer(&remote, current) {
                Ok(Some(to_string(tag)))
            } else {
                Ok(None)
            }
        },
        Err(e) => Err(e),
    }
}

/// The release an update installs: the tag when it names a version newer than
/// `current`, an error when it does not, and the parse error when the tag is no
/// version. The running version itself is never installed.
pub fn update_target(tag: &str, current: &SemVersion) -> (r: Result<String, String>)
    ensures
        semver_parse(strip_v(tag@)) == Some(current.parts()) ==> (r matches Err(m) && m@ == "没有可用更新"@),
        match semver_parse(strip_v(tag@)) {
            Some(p) => if version_above(p, current.parts()) {
                r matches Ok(t) && t@ == tag@
            } else {
                r matches Err(m) && m@ == "没有可用更新"@
            },
            None => r matches Err(m) && bad_tag_message(tag@, m@),
        },
{
    match parse_release_tag(tag) {
        Ok(remote) => {
            if is_newer(&remote, current) {
                Ok(to_string(tag))
            } else {
                Err(String::from_str("没有可用更新"))
            }
        },
        Err(e) => Err(e),
    }
}

/// The tag of the latest release in a GitHub release document.
pub fn release_tag(doc: &crate::json::JsonValue) -> (r: Result<String, String>)
    ensures
        match crate::json::str_of(crate::json::field(*doc, "tag_name"@)) {
            Some(t) => r matches Ok(s) && s@ == t,
            None => r matches Err(e) && e@ == "检查更新失败: 响应缺少 tag_name"@,
        },
{
    match crate::json::as_str(crate::json::get(doc, "tag_name")) {
        Some(t) => Ok(to_string(t)),
        None => Err(String::from_str("检查更新失败: 响应缺少 tag_name")),
    }
}

/// The platforms the shell ships installers for.
#[derive(Debug, Clone, Copy, PartialEq, Eq, Structural)]
pub enum InstallerPlatform {
    MacOs,
    Windows,
    /// Any other platform gets the AppImage.
    Other,
}

/// The file ending of the installer for a platform.
pub open spec fn installer_ending(platform: InstallerPlatform) -> Seq<char> {
    match platform {
        InstallerPlatform::MacOs => ".dmg"@,
        InstallerPlatform::Windows => ".exe"@,
        InstallerPlatform::Other => ".AppImage"@,
    }
}

pub fn installer_extension(platform: InstallerPlatform) -> (r: &'static str)
    ensures
        r@ == installer_ending(platform),
{
    match platform {
        InstallerPlatform::MacOs => ".dmg",
        InstallerPlatform::Windows => ".exe",
        InstallerPlatform::Other => ".AppImage",
    }
}

/// The installer of a release: its file name and download URL.
#[derive(Debug, Clone, PartialEq, Eq)]
pub struct ReleaseAsset {
    pub name: String,
    pub url: String,
}

/// An asset whose name ends with `ext`.
pub open spec fn asset_matches(item: crate::json::JsonValue, ext: Seq<char>) -> bool {
    crate::json::str_of(crate::json::field(item, "name"@)) matches Some(n) && crate::text::seq_ends_with(n, ext)
}

/// The index of the first asset whose name ends with `ext` (the length if none).
pub open spec fn first_matching(items: Seq<crate::json::JsonValue>, ext: Seq<char>) -> int
    decreases items.len(),
{
    if items.len() == 0 {
        0
    } else if asset_matches(items[0], ext) {
        0
    } else {
        1 + first_matching(items.drop_first(), ext)
    }
}

proof fn lemma_first_matching(items: Seq<crate::json::JsonValue>, ext: Seq<char>, k: int)
    requires
        0 <= k <= items.len(),
        k < items.len() ==> asset_matches(items[k], ext),
        forall|j: int| 0 <= j < k ==> !asset_matches(#[trigger] items[j], ext),
    ensures
        first_matching(items, ext) == k,
    decreases items.len(),
{
    if items.len() > 0 && k > 0 {
        assert forall|j: int| 0 <= j < k - 1 implies !asset_matches(#[trigger] items.drop_first()[j], ext) by {
            assert(items.drop_first()[j] == items[j + 1]);
        }
        lemma_first_matching(items.drop_first(), ext, k - 1);
    }
}

/// The installer of a release document: the first of its `assets` whose name ends
/// with `ext`, with its `browser_download_url`.
pub open spec fn asset_of(doc: crate::json::JsonValue, ext: Seq<char>) -> Result<(Seq<char>, Seq<char>), Seq<char>> {
    let items = match crate::json::field(doc, "assets"@) {
        Some(crate::json::JsonValue::Array(items)) => items@,
        _ => Seq::empty(),
    };
    let k = first_matching(items, ext);
    if k >= items.len() {
        Err("发布中未找到 "@ + ext + " 安装包"@)
    } else {
        match crate::json::str_of(crate::json::field(items[k], "browser_download_url"@)) {
            Some(url) => Ok((crate::json::str_of(crate::json::field(items[k], "name"@))->0, url)),
            None => Err("资产缺少下载地址"@),
        }
    }
}

pub fn release_asset(doc: &crate::json::JsonValue, ext: &str) -> (r: Result<ReleaseAsset, String>)
    ensures
        match asset_of(*doc, ext@) {
            Ok((name, url)) => r matches Ok(a) && a.name@ == name && a.url@ == url,
            Err(m) => r matches Err(e) && e@ == m,
        },
{
    let ghost spec_items = match crate::json::field(*doc, "assets"@) {
        Some(crate::json::JsonValue::Array(items)) => items@,
        _ => Seq::empty(),
    };
    let items: &[crate::json::JsonValue] = match crate::json::get(doc, "assets") {
        Some(crate::json::JsonValue::Array(items)) => items.as_slice(),
        _ => &[],
    };
    assert(items@ =~= spec_items);
    let mut i: usize = 0;
    while i < items.len()
        invariant
            i <= items@.len(),
            items@ == spec_items,
            spec_items == match crate::json::field(*doc, "assets"@) {
                Some(crate::json::JsonValue::Array(items)) => items@,
                _ => Seq::empty(),
            },
            forall|j: int| 0 <= j < i ==> !asset_matches(#[trigger] items@[j], ext@),
        decreases items@.len() - i,
    {
        let name = crate::json::as_str(crate::json::get(&items[i], "name"));
        let matched = match name {
            Some(n) => crate::text::ends_with(n, ext),
            None => false,
        };
        if matched {
            proof {
                lemma_first_matching(items@, ext@, i as int);
            }
            let n = name.unwrap();
            return match crate::json::as_str(crate::json::get(&items[i], "browser_download_url")) {
                Some(url) => Ok(ReleaseAsset { name: to_string(n), url: to_string(url) }),
                None => Err(String::from_str("资产缺少下载地址")),
            };
        }
        i = i + 1;
    }
    proof {
        lemma_first_matching(items@, ext@, i as int);
    }
    let mut m = String::from_str("发布中未找到 ");
    m.append(ext);
    m.append(" 安装包");
    Err(m)
}

/// Every character of a decimal representation is a digit, and it reads back as the
/// number.
pub proof fn lemma_decimal_digits(n: nat)
    ensures
        decimal(n).len() > 0,
        forall|i: int| 0 <= i < decimal(n).len() ==> crate::text::is_digit(#[trigger] decimal(n)[i]),
        digits_value(decimal(n)) == n,
    decreases n,
{
    let d = crate::text::digit_char(n % 10);
    assert(crate::text::is_digit(d) && (d as nat) - ('0' as nat) == n % 10) by {
        assert(n % 10 < 10);
    }
    let s = decimal(n);
    if n >= 10 {
        lemma_decimal_digits(n / 10);
        assert(s == decimal(n / 10).push(d));
        assert(s.drop_last() =~= decimal(n / 10));
        assert(s.last() == d);
        assert forall|i: int| 0 <= i < s.len() implies crate::text::is_digit(#[trigger] s[i]) by {
            if i < s.len() - 1 {
                assert(s[i] == decimal(n / 10)[i]);
            }
        }
        assert(digits_value(s) == digits_value(decimal(n / 10)) * 10 + ((d as nat) - ('0' as nat)) as nat);
        assert(digits_value(s) == (n / 10) * 10 + n % 10);
    } else {
        assert(s == seq![d]);
        assert(s.drop_last() =~= Seq::<char>::empty());
        assert(digits_value(Seq::<char>::empty()) == 0);
        assert(digits_value(s) == digits_value(s.drop_last()) * 10 + ((d as nat) - ('0' as nat)) as nat);
    }
}

proof fn lemma_no_char_in_digits(d: Seq<char>, c: char)
    requires
        forall|i: int| 0 <= i < d.len() ==> crate::text::is_digit(#[trigger] d[i]),
        !crate::text::is_digit(c),
    ensures
        seq_split(d, c) == seq![d],
{
    crate::text::lemma_first_index_unique(d, c, d.len() as int);
}

/// The authority of the loopback URL for a digit string.
pub open spec fn loopback_authority(d: Seq<char>) -> Seq<char> {
    seq!['1', '2', '7', '.', '0', '.', '0', '.', '1', ':'] + d
}

proof fn lemma_url_pieces(d: Seq<char>)
    requires
        forall|i: int| 0 <= i < d.len() ==> crate::text::is_digit(#[trigger] d[i]),
    ensures
        seq_split(crate::process::LOOPBACK_ORIGIN@ + d, '/').len() == 3,
        seq_split(crate::process::LOOPBACK_ORIGIN@ + d, '/')[2] == loopback_authority(d),
{
    reveal_strlit("http://127.0.0.1:");
    let origin = crate::process::LOOPBACK_ORIGIN@;
    assert(origin =~= seq!['h', 't', 't', 'p', ':', '/', '/', '1', '2', '7', '.', '0', '.', '0', '.', '1', ':']);
    let url = origin + d;
    assert(url[5] == '/');
    assert forall|j: int| 0 <= j < 5 implies url[j] != '/' by {}
    crate::text::lemma_first_index_unique(url, '/', 5);
    let rest1 = url.skip(6);
    assert(rest1[0] == '/');
    crate::text::lemma_first_index_unique(rest1, '/', 0);
    let auth = rest1.skip(1);
    assert(auth =~= loopback_authority(d));
    assert forall|j: int| 0 <= j < auth.len() implies auth[j] != '/' by {
        if j >= 10 {
            assert(auth[j] == d[j - 10]);
            assert(crate::text::is_digit(d[j - 10]));
        }
    }
    crate::text::lemma_first_index_unique(auth, '/', auth.len() as int);
    assert(seq_split(auth, '/') == seq![auth]);
    assert(seq_split(rest1, '/') == seq![rest1.take(0)] + seq_split(auth, '/'));
    assert(seq_split(url, '/') == seq![url.take(5)] + seq_split(rest1, '/'));
}

proof fn lemma_authority_port(d: Seq<char>)
    requires
        forall|i: int| 0 <= i < d.len() ==> crate::text::is_digit(#[trigger] d[i]),
    ensures
        seq_split(loopback_authority(d), ':').last() == d,
{
    let auth = loopback_authority(d);
    assert(auth[9] == ':');
    assert forall|j: int| 0 <= j < 9 implies auth[j] != ':' by {}
    crate::text::lemma_first_index_unique(auth, ':', 9);
    assert(auth.skip(10) =~= d);
    lemma_no_char_in_digits(d, ':');
    assert(seq_split(auth, ':') == seq![auth.take(9)] + seq_split(d, ':'));
}

/// The port that a `dsh web` start-up line announces is the port that the health
/// check reads back from the URL the shell builds for it.
pub proof fn law_announced_port_is_health_checked(line: Seq<char>)
    requires
        crate::process::dsh_web_port(line) is Some,
    ensures
        port_of(crate::process::LOOPBACK_ORIGIN@ + decimal(crate::process::dsh_web_port(line)->0))
            == crate::process::dsh_web_port(line)->0,
{
    let p = crate::process::dsh_web_port(line)->0;
    assert(p <= 65535);
    let d = decimal(p);
    lemma_decimal_digits(p);
    lemma_url_pieces(d);
    lemma_authority_port(d);
    assert(unsigned_digits(d) == d) by {
        assert(crate::text::is_digit(d[0]));
    }
    assert(parses_unsigned(d, 65535));
}

/// An option's `Debug` text of an exit code: `Some(<code>)` or `None`.
pub open spec fn debug_code(code: Option<i32>) -> Seq<char> {
    match code {
        Some(c) => "Some("@ + signed_decimal(c as int) + ")"@,
        None => "None"@,
    }
}

/// What a request to install or update dsh does first: nothing (`Ok(false)`) while an
/// install or update is running, the missing-npm error when npm was not found, and
/// otherwise go ahead (`Ok(true)`); `update` chooses the update's error text.
pub open spec fn npm_request(installing: bool, npm_found: bool, update: bool) -> Result<bool, Seq<char>> {
    if installing {
        Ok(false)
    } else if !npm_found {
        Err(
            if update {
                "未检测到 npm，无法更新 DSH"@
            } else {
                "未检测到 npm，无法安装 DSH（请先安装 Node.js）"@
            },
        )
    } else {
        Ok(true)
    }
}

pub open spec fn result_view(r: Result<bool, String>) -> Result<bool, Seq<char>> {
    match r {
        Ok(b) => Ok(b),
        Err(m) => Err(m@),
    }
}

fn npm_missing(update: bool) -> (r: String)
    ensures
        npm_request(false, false, update) == Err::<bool, Seq<char>>(r@),
{
    if update {
        String::from_str("未检测到 npm，无法更新 DSH")
    } else {
        String::from_str("未检测到 npm，无法安装 DSH（请先安装 Node.js）")
    }
}

/// Whether a request to install dsh goes ahead; see `npm_request`.
pub fn dsh_install_request(installing: bool, npm_found: bool) -> (r: Result<bool, String>)
    ensures
        result_view(r) == npm_request(installing, npm_found, false),
{
    if installing {
        Ok(false)
    } else if !npm_found {
        Err(npm_missing(false))
    } else {
        Ok(true)
    }
}

/// Whether a request to update dsh goes ahead; see `npm_request`.
pub fn dsh_update_request(installing: bool, npm_found: bool) -> (r: Result<bool, String>)
    ensures
        result_view(r) == npm_request(installing, npm_found, true),
{
    if installing {
        Ok(false)
    } else if !npm_found {
        Err(npm_missing(true))
    } else {
        Ok(true)
    }
}

fn npm_failure(prefix: &str, code: Option<i32>) -> (r: String)
    ensures
        r@ == prefix@ + " (exit "@ + debug_code(code) + ")"@,
{
    let mut m = to_string(prefix);
    m.append(" (exit ");
    match code {
        Some(c) => {
            m.append("Some(");
            push_signed(&mut m, c);
            m.append(")");
        },
        None => {
            m.append("None");
        },
    }
    m.append(")");
    proof {
        reveal_strlit("Some(");
        reveal_strlit(")");
        reveal_strlit("None");
    }
    m
}

/// The outcome of `npm install -g @deepseek-ai/dsh`: done when npm succeeded, else
/// the failure with npm's exit code.
pub fn npm_install_result(success: bool, code: Option<i32>) -> (r: Result<(), String>)
    ensures
        success <==> r is Ok,
        r matches Err(m) ==> m@ == "npm 安装失败"@ + " (exit "@ + debug_code(code) + ")"@,
{
    if success {
        Ok(())
    } else {
        Err(npm_failure("npm 安装失败", code))
    }
}

/// The outcome of `npm install -g @deepseek-ai/dsh@latest`: done when npm succeeded,
/// else the failure with npm's exit code.
pub fn npm_update_result(success: bool, code: Option<i32>) -> (r: Result<(), String>)
    ensures
        success <==> r is Ok,
        r matches Err(m) ==> m@ == "npm 更新失败"@ + " (exit "@ + debug_code(code) + ")"@,
{
    if success {
        Ok(())
    } else {
        Err(npm_failure("npm 更新失败", code))
    }
}

/// A downloaded installer's file name is kept only when it is a real name: not
/// empty, `.` or `..`.
pub open spec fn usable_file_name(f: Seq<char>) -> bool {
    f.len() > 0 && f != "."@ && f != ".."@
}

/// The name an asset is saved under, given the file name that `name` has as a path:
/// that file name when it is usable, else the invalid-name error.
pub fn asset_file_name_verdict(name: &str, file_name: Option<&str>) -> (r: Result<String, String>)
    ensures
        match file_name {
            Some(f) => if usable_file_name(f@) {
                r matches Ok(s) && s@ == f@
            } else {
                r matches Err(m) && m@ == "资产名称无效: "@ + name@
            },
            None => r matches Err(m) && m@ == "资产名称无效: "@ + name@,
        },
{
    proof {
        reveal_strlit(".");
        reveal_strlit("..");
    }
    match file_name {
        Some(f) => {
            let n = f.unicode_len();
            let dot = n == 1 && f.get_char(0) == '.';
            let dotdot = n == 2 && f.get_char(0) == '.' && f.get_char(1) == '.';
            proof {
                if f@ == "."@ {
                    assert(dot);
                }
                if f@ == ".."@ {
                    assert(dotdot);
                }
                if dot {
                    assert(f@ =~= "."@);
                }
                if dotdot {
                    assert(f@ =~= ".."@);
                }
            }
            if n > 0 && !dot && !dotdot {
                return Ok(to_string(f));
            }
        },
        None => {},
    }
    let mut m = String::from_str("资产名称无效: ");
    m.append(name);
    Err(m)
}

/// The file name a downloaded asset is saved under: the final component of its name
/// as a path, refused when it is empty, `.` or `..`. A name that is one plain
/// component is kept as it is, a name `p/f` with a plain `f` is saved as `f`, and a
/// saved name never holds a `/`; how `\` is read is the platform's.
pub fn safe_asset_name(name: &str) -> (r: Result<String, String>)
    ensures
        plain_component(name@) ==> (r matches Ok(s) && s@ == name@),
        without_share_prefix(name@) ==> forall|p: Seq<char>, f: Seq<char>|
            #![trigger p + seq!['/'] + f]
            name@ == p + seq!['/'] + f && plain_component(f) ==> (r matches Ok(s) && s@ == f),
        r matches Ok(s) ==> usable_file_name(s@),
        !verbatim(name@) && r is Ok ==> !r->Ok_0@.contains('/'),
        r matches Err(m) ==> m@ == "资产名称无效: "@ + name@,
{
    let file_name = file_name_of(name);
    let r = match &file_name {
        Some(f) => asset_file_name_verdict(name, Some(f.as_str())),
        None => asset_file_name_verdict(name, None),
    };
    proof {
        if without_share_prefix(name@) {
            assert forall|p: Seq<char>, f: Seq<char>|
                name@ == p + seq!['/'] + f && plain_component(f) implies (r matches Ok(s) && s@ == f) by {
                assert(file_name is Some && file_name.unwrap()@ == f);
                assert(usable_file_name(f)) by {
                    reveal_strlit(".");
                    reveal_strlit("..");
                }
            }
        }
    }
    r
}

} // verus!
