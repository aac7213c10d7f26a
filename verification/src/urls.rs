//! URL classification for the window navigation policy and the bridge, on top of
//! the `url` crate's parser.
use crate::text::{has_control, is_control, seq_trim, str_eq, trim};
use vstd::prelude::*;

verus! {

/// What the policies read of a parsed URL.
#[derive(Debug, Clone)]
pub struct UrlParts {
    pub scheme: String,
    /// `Url::host_str`.
    pub host: Option<String>,
    /// `Url::origin` when it is a tuple origin (scheme, host, port); an opaque origin
    /// equals no other origin and is `None`.
    pub origin: Option<(String, String, u16)>,
}

pub struct UrlView {
    pub scheme: Seq<char>,
    pub host: Option<Seq<char>>,
    pub origin: Option<(Seq<char>, Seq<char>, u16)>,
}

impl View for UrlParts {
    type V = UrlView;

    open spec fn view(&self) -> UrlView {
        UrlView {
            scheme: self.scheme@,
            host: match self.host {
                Some(h) => Some(h@),
                None => None,
            },
            origin: match self.origin {
                Some(o) => Some((o.0@, o.1@, o.2)),
                None => None,
            },
        }
    }
}

/// What `url::Url::parse` makes of a text: `None` when it refuses it.
pub uninterp spec fn url_parse(text: Seq<char>) -> Option<UrlView>;

pub open spec fn opt_url_view(u: Option<UrlParts>) -> Option<UrlView> {
    match u {
        Some(p) => Some(p@),
        None => None,
    }
}

/// Parses a URL with `url::Url::parse` and keeps its scheme, host and origin.
#[verifier::external_body]
pub(crate) fn parse_url(text: &str) -> (r: Option<UrlParts>)
    ensures
        opt_url_view(r) == url_parse(text@),
{
    match url::Url::parse(text) {
        Ok(u) => {
            let origin = match u.origin() {
                url::Origin::Tuple(scheme, host, port) => Some((scheme, host.to_string(), port)),
                url::Origin::Opaque(_) => None,
            };
            let host = match u.host_str() {
                Some(h) => Some(h.to_string()),
                None => None,
            };
            Some(UrlParts { scheme: u.scheme().to_string(), host, origin })
        },
        Err(_) => None,
    }
}

/// A path that has a separator (`/` or `\\`) somewhere, which every absolute path has.
pub open spec fn has_separator(path: Seq<char>) -> bool {
    path.contains('/') || path.contains('\\')
}

/// `std::path::Path::is_absolute`. Which paths are absolute depends on the platform
/// (a leading `/` on Unix, a drive or share with a root on Windows), so only what
/// holds on every platform is stated: an absolute path has a separator.
#[verifier::external_body]
pub(crate) fn path_is_absolute(path: &str) -> (r: bool)
    ensures
        r ==> has_separator(path@),
{
    std::path::Path::new(path).is_absolute()
}

/// Two URLs have the same tuple origin.
pub open spec fn same_origin(a: UrlView, b: UrlView) -> bool {
    a.origin is Some && a.origin == b.origin
}

fn origins_equal(a: &UrlParts, b: &UrlParts) -> (r: bool)
    ensures
        r == same_origin(a@, b@),
{
    match (&a.origin, &b.origin) {
        (Some(x), Some(y)) => str_eq(x.0.as_str(), y.0.as_str()) && str_eq(x.1.as_str(), y.1.as_str())
            && x.2 == y.2,
        _ => false,
    }
}

/// The fixed development origins of the shell's own pages.
pub open spec fn dev_origin_match(u: UrlView) -> bool {
    (url_parse("http://localhost:5173"@) matches Some(c) && same_origin(c, u)) || (url_parse(
        "http://127.0.0.1:5173"@,
    ) matches Some(c) && same_origin(c, u))
}

/// A URL the main window may show as one of the shell's own pages: `tauri://localhost`
/// or an `http` URL of a fixed development origin.
pub open spec fn shell_url(u: UrlView) -> bool {
    (u.scheme == "tauri"@ && u.host == Some("localhost"@)) || (u.scheme == "http"@ && dev_origin_match(u))
}

pub fn is_shell_url(url: &UrlParts) -> (r: bool)
    ensures
        r == shell_url(url@),
{
    let is_tauri_local = str_eq(url.scheme.as_str(), "tauri") && match &url.host {
        Some(h) => str_eq(h.as_str(), "localhost"),
        None => false,
    };
    if is_tauri_local {
        return true;
    }
    if !str_eq(url.scheme.as_str(), "http") {
        return false;
    }
    let first = match parse_url("http://localhost:5173") {
        Some(c) => origins_equal(&c, url),
        None => false,
    };
    if first {
        return true;
    }
    match parse_url("http://127.0.0.1:5173") {
        Some(c) => origins_equal(&c, url),
        None => false,
    }
}

/// A page of the `dsh web` origin that the shell manages.
pub open spec fn managed_dsh_url(u: UrlView, managed: Option<UrlView>) -> bool {
    managed matches Some(m) && same_origin(m, u)
}

pub fn is_managed_dsh_url(url: &UrlParts, managed: Option<&UrlParts>) -> (r: bool)
    ensures
        r == managed_dsh_url(
            url@,
            match managed {
                Some(m) => Some(m@),
                None => None,
            },
        ),
{
    match managed {
        Some(m) => origins_equal(m, url),
        None => false,
    }
}

/// A URL that is handed to the system browser.
pub open spec fn external_url(u: UrlView) -> bool {
    u.scheme == "http"@ || u.scheme == "https"@
}

pub fn is_external_url(url: &UrlParts) -> (r: bool)
    ensures
        r == external_url(url@),
{
    str_eq(url.scheme.as_str(), "http") || str_eq(url.scheme.as_str(), "https")
}

/// A loopback `dsh web` page that receives the bridge.
pub open spec fn dsh_web_url(u: UrlView) -> bool {
    u.host matches Some(h) && (h == "127.0.0.1"@ || h == "localhost"@ || h == "::1"@ || h
        == "[::1]"@ || h == "0:0:0:0:0:0:0:1"@ || h == "[0:0:0:0:0:0:0:1]"@)
}

pub fn is_dsh_web_url(url: &UrlParts) -> (r: bool)
    ensures
        r == dsh_web_url(url@),
{
    match &url.host {
        Some(h) => {
            let h = h.as_str();
            str_eq(h, "127.0.0.1") || str_eq(h, "localhost") || str_eq(h, "::1") || str_eq(
                h,
                "[::1]",
            ) || str_eq(h, "0:0:0:0:0:0:0:1") || str_eq(h, "[0:0:0:0:0:0:0:1]")
        },
        None => false,
    }
}

/// The verdict on a target that the bridge asks to open: an `http(s)` URL, or an
/// absolute path that exists (`absolute` and `exists` tell what the platform and the
/// disk say of the path).
pub open spec fn open_target_verdict(target: Seq<char>, absolute: bool, exists: bool) -> Result<(), Seq<char>> {
    if seq_trim(target).len() == 0 || exists|i: int| 0 <= i < target.len() && is_control(
        #[trigger] target[i],
    ) {
        Err("打开目标无效"@)
    } else if url_parse(target) is Some {
        if external_url(url_parse(target)->0) {
            Ok(())
        } else {
            Err("不允许打开非 HTTP(S) URL: "@ + target)
        }
    } else if absolute && exists {
        Ok(())
    } else {
        Err("只允许打开已存在的绝对文件或目录: "@ + target)
    }
}

/// A verdict as the `Result` of strings that reports it.
pub open spec fn reports(r: Result<(), String>, v: Result<(), Seq<char>>) -> bool {
    match v {
        Ok(()) => r is Ok,
        Err(m) => r matches Err(e) && e@ == m,
    }
}

/// Checks a target to open, given whether the path is absolute on this platform and
/// whether it exists.
pub fn check_open_external_target(target: &str, absolute: bool, exists: bool) -> (r: Result<(), String>)
    ensures
        reports(r, open_target_verdict(target@, absolute, exists)),
{
    if trim(target).unicode_len() == 0 || has_control(target) {
        return Err(String::from_str("打开目标无效"));
    }
    match parse_url(target) {
        Some(url) => {
            if is_external_url(&url) {
                return Ok(());
            }
            let mut message = String::from_str("不允许打开非 HTTP(S) URL: ");
            message.append(target);
            return Err(message);
        },
        None => {},
    }
    if absolute && exists {
        return Ok(());
    }
    let mut message = String::from_str("只允许打开已存在的绝对文件或目录: ");
    message.append(target);
    Err(message)
}

/// Checks a target that the bridge asks to open (`exists` tells whether the path
/// exists on disk); whether it is absolute is asked of the platform.
pub fn validate_open_external_target(target: &str, exists: bool) -> (r: Result<(), String>)
    ensures
        exists|absolute: bool| (absolute ==> has_separator(target@)) && reports(r, open_target_verdict(target@, absolute, exists)),
{
    let absolute = path_is_absolute(target);
    check_open_external_target(target, absolute, exists)
}

} // verus!
