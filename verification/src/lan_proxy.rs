//! Settings, validation and status of the LAN reverse proxy.
use crate::runtime::{copy_opt, strings_view};
use crate::text::{
    contains, decimal, push_decimal, seq_contains, seq_split, seq_starts_with, seq_trim,
    seq_trim_end, is_ws, split_char, strip_prefix, to_ascii_lowercase, trim, trim_end,
    ascii_lower, char_is_whitespace,
};
use crate::urls::{parse_url, url_parse};
use vstd::prelude::*;

verus! {

pub const DEFAULT_BIND: &'static str = "0.0.0.0";

pub const DEFAULT_PORT: u16 = 8080;

pub const DEFAULT_TARGET: &'static str = "127.0.0.1:53553";

/// Most proxy output lines kept.
pub const MAX_MESSAGES: usize = 200;

/// The proxy settings stored in `lan-proxy.json`.
#[derive(Debug, Clone, PartialEq, Eq)]
pub struct LanProxySettings {
    pub bind: String,
    pub port: u16,
    /// The upstream `dsh web` address; when empty the current URL is used, else the
    /// default port.
    pub target: Option<String>,
}

/// The proxy status shown by the settings page.
#[derive(Debug, Clone, PartialEq, Eq)]
pub struct LanProxySnapshot {
    pub settings: LanProxySettings,
    pub running: bool,
    pub url: Option<String>,
    pub urls: Vec<String>,
    pub error: Option<String>,
}

pub fn default_bind() -> (r: String)
    ensures
        r@ == DEFAULT_BIND@,
{
    String::from_str(DEFAULT_BIND)
}

pub fn default_port() -> (r: u16)
    ensures
        r == DEFAULT_PORT,
{
    DEFAULT_PORT
}

impl LanProxySettings {
    pub fn default_settings() -> (r: Self)
        ensures
            r.bind@ == DEFAULT_BIND@,
            r.port == DEFAULT_PORT,
            r.target is None,
    {
        LanProxySettings { bind: default_bind(), port: default_port(), target: None }
    }

    /// A copy of the settings.
    pub fn copy(&self) -> (r: Self)
        ensures
            r == *self,
    {
        LanProxySettings { bind: self.bind.clone(), port: self.port, target: copy_opt(&self.target) }
    }
}

impl Default for LanProxySettings {
    fn default() -> (r: Self)
        ensures
            r.bind@ == DEFAULT_BIND@,
            r.port == DEFAULT_PORT,
            r.target is None,
    {
        LanProxySettings::default_settings()
    }
}

/// The target, when it is set to something other than whitespace.
pub open spec fn effective_target(settings: LanProxySettings) -> Option<Seq<char>> {
    match settings.target {
        Some(t) => if seq_trim(t@).len() > 0 {
            Some(t@)
        } else {
            None
        },
        None => None,
    }
}

/// The verdict on an upstream target: a host or `host:port` that `url` accepts.
pub open spec fn target_verdict(target: Seq<char>) -> Result<(), Seq<char>> {
    let t = seq_trim(target);
    if t.len() == 0 || seq_contains(t, "://"@) || t.contains('/') || exists|i: int|
        0 <= i < t.len() && is_ws(#[trigger] t[i]) {
        Err("上游 dsh 地址应为 host 或 host:port"@)
    } else if !(url_parse("http://"@ + t) matches Some(u) && u.host is Some) {
        Err("上游 dsh 地址无效"@)
    } else {
        Ok(())
    }
}

/// Whether some character of `s` is whitespace.
fn has_whitespace(s: &str) -> (r: bool)
    ensures
        r == exists|i: int| 0 <= i < s@.len() && is_ws(#[trigger] s@[i]),
{
    let n = s.unicode_len();
    let mut i: usize = 0;
    while i < n
        invariant
            n == s@.len(),
            i <= n,
            forall|j: int| 0 <= j < i ==> !is_ws(#[trigger] s@[j]),
        decreases n - i,
    {
        if char_is_whitespace(s.get_char(i)) {
            return true;
        }
        i = i + 1;
    }
    false
}

fn validate_target(target: &str) -> (r: Result<(), String>)
    ensures
        match target_verdict(target@) {
            Ok(()) => r is Ok,
            Err(m) => r matches Err(e) && e@ == m,
        },
{
    let trimmed = trim(target);
    if trimmed.unicode_len() == 0 || contains(trimmed, "://") || crate::text::contains_char(
        trimmed,
        '/',
    ) || has_whitespace(trimmed) {
        return Err(String::from_str("上游 dsh 地址应为 host 或 host:port"));
    }
    let mut text = String::from_str("http://");
    text.append(trimmed);
    match parse_url(text.as_str()) {
        Some(u) => match &u.host {
            Some(_) => Ok(()),
            None => Err(String::from_str("上游 dsh 地址无效")),
        },
        None => Err(String::from_str("上游 dsh 地址无效")),
    }
}

/// The verdict on settings: a non-blank bind address, a non-zero port, and a valid
/// target when one is set.
pub open spec fn settings_verdict(settings: LanProxySettings) -> Result<(), Seq<char>> {
    if seq_trim(settings.bind@).len() == 0 {
        Err("监听地址不能为空"@)
    } else if settings.port == 0 {
        Err("监听端口必须大于 0"@)
    } else {
        match effective_target(settings) {
            Some(t) => target_verdict(t),
            None => Ok(()),
        }
    }
}

pub fn validate(settings: &LanProxySettings) -> (r: Result<(), String>)
    ensures
        match settings_verdict(*settings) {
            Ok(()) => r is Ok,
            Err(m) => r matches Err(e) && e@ == m,
        },
{
    if trim(settings.bind.as_str()).unicode_len() == 0 {
        return Err(String::from_str("监听地址不能为空"));
    }
    if settings.port == 0 {
        return Err(String::from_str("监听端口必须大于 0"));
    }
    match &settings.target {
        Some(t) => {
            if trim(t.as_str()).unicode_len() > 0 {
                return validate_target(t.as_str());
            }
        },
        None => {},
    }
    Ok(())
}

/// The upstream the proxy forwards to: the set target, else the host of the current
/// `http://` URL, else the default.
pub open spec fn resolved_target(
    settings: LanProxySettings,
    current_url: Option<Seq<char>>,
) -> Result<Seq<char>, Seq<char>> {
    if effective_target(settings) is Some {
        match target_verdict(effective_target(settings)->0) {
            Ok(()) => Ok(seq_trim(effective_target(settings)->0)),
            Err(m) => Err(m),
        }
    } else if current_url matches Some(u) && seq_starts_with(u, "http://"@) && seq_split(
        u.skip(7),
        '/',
    )[0].len() > 0 {
        Ok(seq_split(current_url->0.skip(7), '/')[0])
    } else {
        Ok(DEFAULT_TARGET@)
    }
}

/// A target the user set (not blank) decides the upstream whatever `dsh web` is
/// running at: when it is valid it is the upstream, trimmed, and the current URL is
/// never looked at; the current URL's host is used only when no target is set.
pub proof fn law_set_target_wins(
    settings: LanProxySettings,
    current: Option<Seq<char>>,
    other: Option<Seq<char>>,
)
    ensures
        settings.target matches Some(t) ==> (seq_trim(t@).len() > 0 ==> resolved_target(
            settings,
            current,
        ) == resolved_target(settings, other)),
        settings.target matches Some(t) ==> (seq_trim(t@).len() > 0 && target_verdict(t@) is Ok
            ==> resolved_target(settings, current) == Ok::<Seq<char>, Seq<char>>(seq_trim(t@))),
        settings.target is None ==> (current matches Some(u) ==> (seq_starts_with(u, "http://"@)
            && seq_split(u.skip(7), '/')[0].len() > 0 ==> resolved_target(settings, current)
            == Ok::<Seq<char>, Seq<char>>(seq_split(u.skip(7), '/')[0]))),
        settings.target is None && current is None ==> resolved_target(settings, current) == Ok::<
            Seq<char>,
            Seq<char>,
        >(DEFAULT_TARGET@),
{
}

pub fn resolve_target(settings: &LanProxySettings, current_url: Option<&str>) -> (r: Result<
    String,
    String,
>)
    ensures
        match resolved_target(
            *settings,
            match current_url {
                Some(u) => Some(u@),
                None => None,
            },
        ) {
            Ok(t) => r matches Ok(s) && s@ == t,
            Err(m) => r matches Err(e) && e@ == m,
        },
        settings.target matches Some(t) ==> (seq_trim(t@).len() > 0 && target_verdict(t@) is Ok
            ==> (r matches Ok(s) && s@ == seq_trim(t@))),
{
    proof {
        reveal_strlit("http://");
    }
    match &settings.target {
        Some(t) => {
            if trim(t.as_str()).unicode_len() > 0 {
                match validate_target(t.as_str()) {
                    Ok(()) => {
                        return Ok(trim(t.as_str()).to_owned());
                    },
                    Err(e) => {
                        return Err(e);
                    },
                }
            }
        },
        None => {},
    }
    match current_url {
        Some(url) => match strip_prefix(url, "http://") {
            Some(rest) => {
                let pieces = split_char(rest, '/');
                proof {
                    assert(seq_split(rest@, '/').len() > 0) by {
                        crate::text::lemma_first_index(rest@, '/');
                    }
                }
                let host = pieces[0];
                if host.unicode_len() > 0 {
                    return Ok(host.to_owned());
                }
            },
            None => {},
        },
        None => {},
    }
    Ok(String::from_str(DEFAULT_TARGET))
}

/// The LAN address the proxy prints on a line, if the line holds one.
pub open spec fn line_url(line: Seq<char>) -> Option<Seq<char>> {
    let t = seq_trim(line);
    if seq_starts_with(t, "局域网访问:"@) {
        Some(seq_trim(t.skip("局域网访问:"@.len() as int)))
    } else {
        None
    }
}

/// The LAN addresses printed in `lines`, in order.
pub open spec fn urls_in(lines: Seq<Seq<char>>) -> Seq<Seq<char>>
    decreases lines.len(),
{
    if lines.len() == 0 {
        seq![]
    } else {
        match line_url(lines.last()) {
            Some(u) => urls_in(lines.drop_last()).push(u),
            None => urls_in(lines.drop_last()),
        }
    }
}

pub fn extract_urls(messages: &[String]) -> (r: Vec<String>)
    ensures
        strings_view(r@) == urls_in(strings_view(messages@)),
{
    let mut out: Vec<String> = Vec::new();
    let mut i: usize = 0;
    while i < messages.len()
        invariant
            i <= messages@.len(),
            strings_view(out@) == urls_in(strings_view(messages@.take(i as int))),
        decreases messages@.len() - i,
    {
        let line = trim(messages[i].as_str());
        let ghost prev = out@;
        match strip_prefix(line, "局域网访问:") {
            Some(value) => {
                out.push(trim(value).to_owned());
            },
            None => {},
        }
        proof {
            let m = strings_view(messages@.take(i + 1));
            assert(m.drop_last() =~= strings_view(messages@.take(i as int)));
            assert(m.last() == messages@[i as int]@);
            assert(strings_view(out@) =~= urls_in(m));
        }
        i = i + 1;
    }
    assert(messages@.take(messages@.len() as int) =~= messages@);
    out
}

/// A proxy output line that reports a failure.
pub open spec fn error_line(line: Seq<char>) -> bool {
    let lower = line.map_values(|c: char| ascii_lower(c));
    seq_contains(lower, "启动失败"@) || seq_contains(lower, "端口无效"@) || seq_contains(
        lower,
        "目标地址无效"@,
    ) || seq_contains(lower, "error"@)
}

fn is_error_line(line: &str) -> (r: bool)
    ensures
        r == error_line(line@),
{
    let lower = to_ascii_lowercase(line);
    let l = lower.as_str();
    contains(l, "启动失败") || contains(l, "端口无效") || contains(l, "目标地址无效") || contains(
        l,
        "error",
    )
}

/// The latest line reporting a failure.
pub fn latest_error(messages: &[String]) -> (r: Option<String>)
    ensures
        r matches Some(s) ==> exists|i: int|
            0 <= i < messages@.len() && messages@[i] == s && error_line(s@) && forall|j: int|
                i < j < messages@.len() ==> !error_line(#[trigger] messages@[j]@),
        r is None ==> forall|j: int| 0 <= j < messages@.len() ==> !error_line(#[trigger] messages@[j]@),
{
    let mut i: usize = messages.len();
    while i > 0
        invariant
            i <= messages@.len(),
            forall|j: int| i <= j < messages@.len() ==> !error_line(#[trigger] messages@[j]@),
        decreases i,
    {
        i = i - 1;
        if is_error_line(messages[i].as_str()) {
            return Some(messages[i].clone());
        }
    }
    None
}

/// The kept output after a line arrives: the line without trailing whitespace is
/// appended unless empty, and the oldest line goes when more than the limit are kept.
pub open spec fn after_message(messages: Seq<Seq<char>>, line: Seq<char>) -> Seq<Seq<char>> {
    let t = seq_trim_end(line);
    if t.len() == 0 {
        messages
    } else if messages.len() + 1 > MAX_MESSAGES {
        messages.push(t).drop_first()
    } else {
        messages.push(t)
    }
}

pub fn push_message(messages: &mut Vec<String>, line: &str)
    ensures
        strings_view(final(messages)@) == after_message(strings_view(old(messages)@), line@),
{
    let t = trim_end(line);
    if t.unicode_len() == 0 {
        return;
    }
    messages.push(t.to_owned());
    if messages.len() > MAX_MESSAGES {
        messages.remove(0);
    }
    assert(strings_view(messages@) =~= after_message(strings_view(old(messages)@), line@));
}

/// The snapshot of the proxy, given whether its process runs, whether it was stopped
/// on purpose, and its kept output.
pub fn snapshot_of(
    settings: &LanProxySettings,
    running: bool,
    expected_stop: bool,
    messages: &[String],
) -> (r: LanProxySnapshot)
    ensures
        r.settings == *settings,
        r.running == running,
        running ==> strings_view(r.urls@) == urls_in(strings_view(messages@)),
        !running ==> r.urls@.len() == 0,
        r.urls@.len() > 0 ==> r.url == Some(r.urls@[0]),
        r.urls@.len() == 0 && running && seq_trim(settings.bind@).len() > 0 ==> (r.url matches Some(
            u,
        ) && u@ == "http://"@ + seq_trim(settings.bind@) + ":"@ + decimal(settings.port as nat)),
        r.urls@.len() == 0 && !(running && seq_trim(settings.bind@).len() > 0) ==> r.url is None,
        (running || expected_stop) ==> r.error is None,
        !running && !expected_stop ==> match latest_error_spec(messages@) {
            Some(s) => r.error == Some(s),
            None => if messages@.len() == 0 {
                r.error is None
            } else {
                r.error matches Some(e) && e@ == "局域网代理进程已退出"@
            },
        },
{
    let urls = if running {
        extract_urls(messages)
    } else {
        Vec::new()
    };
    let url = if urls.len() > 0 {
        Some(urls[0].clone())
    } else {
        let bind = trim(settings.bind.as_str());
        if running && bind.unicode_len() > 0 {
            let mut u = String::from_str("http://");
            u.append(bind);
            u.append(":");
            push_decimal(&mut u, settings.port as u128);
            Some(u)
        } else {
            None
        }
    };
    let error = if !running && !expected_stop {
        match latest_error(messages) {
            Some(e) => {
                proof {
                    lemma_latest_error_unique(messages@, e);
                }
                Some(e)
            },
            None => {
                proof {
                    lemma_latest_error_none(messages@);
                }
                if messages.len() == 0 {
                    None
                } else {
                    Some(String::from_str("局域网代理进程已退出"))
                }
            },
        }
    } else {
        None
    };
    LanProxySnapshot { settings: settings.copy(), running, url, urls, error }
}

/// The latest kept line reporting a failure.
pub open spec fn latest_error_spec(messages: Seq<String>) -> Option<String>
    decreases messages.len(),
{
    if messages.len() == 0 {
        None
    } else if error_line(messages.last()@) {
        Some(messages.last())
    } else {
        latest_error_spec(messages.drop_last())
    }
}

proof fn lemma_latest_error_unique(messages: Seq<String>, s: String)
    requires
        exists|i: int|
            0 <= i < messages.len() && messages[i] == s && error_line(s@) && forall|j: int|
                i < j < messages.len() ==> !error_line(#[trigger] messages[j]@),
    ensures
        latest_error_spec(messages) == Some(s),
    decreases messages.len(),
{
    let i = choose|i: int|
        0 <= i < messages.len() && messages[i] == s && error_line(s@) && forall|j: int|
            i < j < messages.len() ==> !error_line(#[trigger] messages[j]@);
    if i < messages.len() - 1 {
        assert(!error_line(messages[messages.len() - 1]@));
        let d = messages.drop_last();
        assert(d[i] == s);
        assert forall|j: int| i < j < d.len() implies !error_line(#[trigger] d[j]@) by {
            assert(d[j] == messages[j]);
        }
        lemma_latest_error_unique(d, s);
    }
}

proof fn lemma_latest_error_none(messages: Seq<String>)
    requires
        forall|j: int| 0 <= j < messages.len() ==> !error_line(#[trigger] messages[j]@),
    ensures
        latest_error_spec(messages) is None,
    decreases messages.len(),
{
    if messages.len() > 0 {
        let d = messages.drop_last();
        assert(!error_line(messages[messages.len() - 1]@));
        assert forall|j: int| 0 <= j < d.len() implies !error_line(#[trigger] d[j]@) by {
            assert(d[j] == messages[j]);
        }
        lemma_latest_error_none(d);
    }
}

/// The arguments of the proxy script: the script, then bind address, port and target.
pub fn proxy_command_args(script: &str, settings: &LanProxySettings, target: &str) -> (r: Vec<
    String,
>)
    ensures
        strings_view(r@) == seq![
            script@,
            "--bind"@,
            settings.bind@,
            "--port"@,
            decimal(settings.port as nat),
            "--target"@,
            target@,
        ],
{
    let mut port = String::new();
    push_decimal(&mut port, settings.port as u128);
    let mut r: Vec<String> = Vec::new();
    r.push(script.to_owned());
    r.push(String::from_str("--bind"));
    r.push(settings.bind.clone());
    r.push(String::from_str("--port"));
    r.push(port);
    r.push(String::from_str("--target"));
    r.push(target.to_owned());
    assert(strings_view(r@) =~= seq![
        script@,
        "--bind"@,
        settings.bind@,
        "--port"@,
        decimal(settings.port as nat),
        "--target"@,
        target@,
    ]);
    r
}

/// The kept proxy output never grows past `MAX_MESSAGES` lines, and a kept line is
/// never blank.
pub proof fn law_proxy_output_bounded(messages: Seq<Seq<char>>, line: Seq<char>)
    requires
        messages.len() <= MAX_MESSAGES,
        forall|i: int| 0 <= i < messages.len() ==> (#[trigger] messages[i]).len() > 0,
    ensures
        after_message(messages, line).len() <= MAX_MESSAGES,
        forall|i: int| 0 <= i < after_message(messages, line).len() ==> (
        #[trigger] after_message(messages, line)[i]).len() > 0,
{
    let t = seq_trim_end(line);
    let next = after_message(messages, line);
    if t.len() > 0 {
        assert forall|i: int| 0 <= i < next.len() implies (#[trigger] next[i]).len() > 0 by {
            if messages.len() + 1 > MAX_MESSAGES {
                assert(next[i] == messages.push(t)[i + 1]);
            } else {
                assert(next[i] == messages.push(t)[i]);
            }
        }
    }
}

} // verus!
