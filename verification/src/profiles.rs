//! Profile discovery results and the profile switching state machine
//! (pending → active → last known good, with rollback).
use crate::runtime::copy_opt;
use crate::json::{JsonValue, field, get};
use crate::text::{lemma_seq_lt_asymmetric, lemma_seq_lt_transitive, seq_lt, str_lt, contains_char, decimal, push_decimal, starts_with, str_eq};
use vstd::prelude::*;

verus! {

pub const STATE_VERSION: u8 = 1;

pub const DEFAULT_PROFILE: &'static str = "web";

pub const BASE_BUNDLE: &'static str = "@deepseek-ai/dsh-base";

pub const WEB_APP_BUNDLE: &'static str = "@deepseek-ai/dsh-web-app";

/// Summary of one discovered profile.
#[derive(Debug, Clone, PartialEq, Eq)]
pub struct DshProfileSummary {
    pub name: String,
    pub dir: String,
    pub exists: bool,
    pub web_capable: bool,
    pub problem: Option<String>,
}

impl DshProfileSummary {
    /// A copy of the summary.
    pub fn copy(&self) -> (r: Self)
        ensures
            r == *self,
    {
        DshProfileSummary {
            name: self.name.clone(),
            dir: self.dir.clone(),
            exists: self.exists,
            web_capable: self.web_capable,
            problem: copy_opt(&self.problem),
        }
    }
}

/// Versioned snapshot of the profile switching state.
#[derive(Debug, Clone, PartialEq, Eq)]
pub struct ProfileState {
    pub version: u8,
    pub active: String,
    pub pending: Option<String>,
    pub last_known_good: String,
}

/// The profile a start actually uses, to be committed or rolled back later.
#[derive(Debug, Clone, PartialEq, Eq)]
pub struct StartupContext {
    pub active: String,
    pub last_known_good: String,
}

/// The characters of an optional string.
pub open spec fn opt_view(o: Option<String>) -> Option<Seq<char>> {
    match o {
        Some(s) => Some(s@),
        None => None,
    }
}

/// Plain view of a profile state.
pub struct StateView {
    pub version: u8,
    pub active: Seq<char>,
    pub pending: Option<Seq<char>>,
    pub last_known_good: Seq<char>,
}

impl View for ProfileState {
    type V = StateView;

    open spec fn view(&self) -> StateView {
        StateView {
            version: self.version,
            active: self.active@,
            pending: opt_view(self.pending),
            last_known_good: self.last_known_good@,
        }
    }
}

/// The default state: version 1, `web` active and last known good, nothing pending.
pub open spec fn default_state_view() -> StateView {
    StateView {
        version: STATE_VERSION,
        active: DEFAULT_PROFILE@,
        pending: None,
        last_known_good: DEFAULT_PROFILE@,
    }
}

impl ProfileState {
    pub fn default_state() -> (r: Self)
        ensures
            r@ == default_state_view(),
    {
        ProfileState {
            version: STATE_VERSION,
            active: String::from_str(DEFAULT_PROFILE),
            pending: None,
            last_known_good: String::from_str(DEFAULT_PROFILE),
        }
    }
}

impl Default for ProfileState {
    fn default() -> (r: Self)
        ensures
            r@ == default_state_view(),
    {
        ProfileState::default_state()
    }
}

pub fn default_state_version() -> (r: u8)
    ensures
        r == STATE_VERSION,
{
    STATE_VERSION
}

pub fn default_profile() -> (r: String)
    ensures
        r@ == DEFAULT_PROFILE@,
{
    String::from_str(DEFAULT_PROFILE)
}

/// A name that may stand for a profile directory.
pub open spec fn valid_profile_name(name: Seq<char>) -> bool {
    &&& name.len() > 0
    &&& name != "."@
    &&& name != ".."@
    &&& name != "node_modules"@
    &&& !name.contains('/')
    &&& !name.contains('\\')
}

pub fn is_valid_profile_name(name: &str) -> (r: bool)
    ensures
        r == valid_profile_name(name@),
{
    name.unicode_len() > 0 && !str_eq(name, ".") && !str_eq(name, "..") && !str_eq(
        name,
        "node_modules",
    ) && !contains_char(name, '/') && !contains_char(name, '\\')
}

/// The summary of a profile whose manifest is unusable.
pub fn invalid_summary(name: String, dir: String, problem: String) -> (r: DshProfileSummary)
    ensures
        r.name == name,
        r.dir == dir,
        r.exists,
        !r.web_capable,
        r.problem == Some(problem),
{
    DshProfileSummary { name, dir, exists: true, web_capable: false, problem: Some(problem) }
}

/// A state whose names are all valid, with the current version.
pub open spec fn sanitized(s: StateView) -> StateView {
    if s.version != STATE_VERSION {
        default_state_view()
    } else {
        StateView {
            version: s.version,
            active: if valid_profile_name(s.active) {
                s.active
            } else {
                DEFAULT_PROFILE@
            },
            pending: match s.pending {
                Some(p) => if valid_profile_name(p) {
                    Some(p)
                } else {
                    None
                },
                None => None,
            },
            last_known_good: if valid_profile_name(s.last_known_good) {
                s.last_known_good
            } else {
                DEFAULT_PROFILE@
            },
        }
    }
}

/// Resets a state of another version to the default and replaces invalid names.
pub fn sanitize_state(state: &mut ProfileState)
    ensures
        final(state)@ == sanitized(old(state)@),
{
    if state.version != STATE_VERSION {
        *state = ProfileState::default_state();
        return;
    }
    if !is_valid_profile_name(state.active.as_str()) {
        state.active = String::from_str(DEFAULT_PROFILE);
    }
    let drop_pending = match &state.pending {
        Some(name) => !is_valid_profile_name(name.as_str()),
        None => false,
    };
    if drop_pending {
        state.pending = None;
    }
    if !is_valid_profile_name(state.last_known_good.as_str()) {
        state.last_known_good = String::from_str(DEFAULT_PROFILE);
    }
}

/// The state read back from storage: the default when nothing could be read,
/// otherwise the sanitized state.
pub fn recover_state(parsed: Option<ProfileState>) -> (r: ProfileState)
    ensures
        r@ == match parsed {
            Some(s) => sanitized(s@),
            None => default_state_view(),
        },
{
    match parsed {
        Some(mut state) => {
            sanitize_state(&mut state);
            state
        },
        None => ProfileState::default_state(),
    }
}

/// `name` is the default profile or a discovered web capable profile.
pub open spec fn web_capable(profiles: Seq<DshProfileSummary>, name: Seq<char>) -> bool {
    name == DEFAULT_PROFILE@ || listed_web_capable(profiles, name)
}

/// `name` is a discovered web capable profile.
pub open spec fn listed_web_capable(profiles: Seq<DshProfileSummary>, name: Seq<char>) -> bool {
    exists|i: int| 0 <= i < profiles.len() && (#[trigger] profiles[i]).name@ == name && profiles[i].web_capable
}

pub fn is_listed_web_capable(profiles: &[DshProfileSummary], name: &str) -> (r: bool)
    ensures
        r == listed_web_capable(profiles@, name@),
{
    let mut i: usize = 0;
    while i < profiles.len()
        invariant
            i <= profiles@.len(),
            forall|j: int| 0 <= j < i ==> !((#[trigger] profiles@[j]).name@ == name@ && profiles@[j].web_capable),
        decreases profiles@.len() - i,
    {
        if profiles[i].web_capable && str_eq(profiles[i].name.as_str(), name) {
            return true;
        }
        i = i + 1;
    }
    false
}

pub fn is_web_capable(profiles: &[DshProfileSummary], name: &str) -> (r: bool)
    ensures
        r == web_capable(profiles@, name@),
{
    if str_eq(name, DEFAULT_PROFILE) {
        return true;
    }
    is_listed_web_capable(profiles, name)
}

/// The profile a start uses: the pending one when it is web capable, otherwise the last
/// known good one when it is, otherwise `web`.
pub open spec fn startup_active(s: StateView, profiles: Seq<DshProfileSummary>) -> Seq<char> {
    if s.pending matches Some(p) && web_capable(profiles, p) {
        s.pending->0
    } else if web_capable(profiles, s.last_known_good) {
        s.last_known_good
    } else {
        DEFAULT_PROFILE@
    }
}

/// The last known good profile after a start: kept when web capable, else `web`.
pub open spec fn startup_last_known_good(s: StateView, profiles: Seq<DshProfileSummary>) -> Seq<
    char,
> {
    if web_capable(profiles, s.last_known_good) {
        s.last_known_good
    } else {
        DEFAULT_PROFILE@
    }
}

/// Chooses the profile of a start and returns the context with the state to store:
/// the chosen profile active, nothing pending.
pub fn begin_startup(state: &ProfileState, profiles: &[DshProfileSummary]) -> (r: (
    StartupContext,
    ProfileState,
))
    ensures
        r.0.active@ == startup_active(state@, profiles@),
        r.0.last_known_good@ == startup_last_known_good(state@, profiles@),
        r.1@ == started(state@, profiles@),
        web_capable(profiles@, state.last_known_good@) ==> r.0.last_known_good@ == state.last_known_good@
            && r.1.last_known_good@ == state.last_known_good@,
        state.pending matches Some(p) ==> (web_capable(profiles@, p@) ==> r.0.active@ == p@),
{
    let pending_valid = match &state.pending {
        Some(name) => is_web_capable(profiles, name.as_str()),
        None => false,
    };
    let lkg_valid = is_web_capable(profiles, state.last_known_good.as_str());
    let last_known_good = if lkg_valid {
        state.last_known_good.clone()
    } else {
        String::from_str(DEFAULT_PROFILE)
    };
    let active = if pending_valid {
        match &state.pending {
            Some(name) => name.clone(),
            None => String::new(),
        }
    } else if lkg_valid {
        state.last_known_good.clone()
    } else {
        String::from_str(DEFAULT_PROFILE)
    };
    let context = StartupContext { active: active.clone(), last_known_good: last_known_good.clone() };
    let next = ProfileState { version: state.version, active, pending: None, last_known_good };
    (context, next)
}

/// Selects a profile for the next start: only `pending` changes.
pub fn select_profile(state: &ProfileState, profiles: &[DshProfileSummary], name: &str) -> (r:
    Result<ProfileState, String>)
    ensures
        !valid_profile_name(name@) ==> (r matches Err(e) && e@ == "无效 profile 名称"@),
        valid_profile_name(name@) && !listed_web_capable(profiles@, name@) ==> (r matches Err(e) && e@ == "profile "@ + name@ + " 不存在或不可作为 web profile"@),
        valid_profile_name(name@) && listed_web_capable(profiles@, name@) ==> (r matches Ok(s) && s@ == selected(state@, name@)),
{
    if !is_valid_profile_name(name) {
        return Err(String::from_str("无效 profile 名称"));
    }
    if !is_listed_web_capable(profiles, name) {
        let mut message = String::from_str("profile ");
        message.append(name);
        message.append(" 不存在或不可作为 web profile");
        return Err(message);
    }
    Ok(
        ProfileState {
            version: state.version,
            active: state.active.clone(),
            pending: Some(name.to_owned()),
            last_known_good: state.last_known_good.clone(),
        },
    )
}

/// Commits the running profile as last known good once it is healthy.
pub fn mark_healthy(state: &ProfileState, active: &str) -> (r: Result<ProfileState, String>)
    ensures
        state.active@ != active@ ==> (r matches Err(e) && e@ == "active 与当前 profile 状态不一致"@),
        state.active@ == active@ ==> (r matches Ok(s) && s@ == committed(state@)),
{
    if !str_eq(state.active.as_str(), active) {
        return Err(String::from_str("active 与当前 profile 状态不一致"));
    }
    Ok(
        ProfileState {
            version: state.version,
            active: state.active.clone(),
            pending: None,
            last_known_good: active.to_owned(),
        },
    )
}

/// Rolls a failed start back: the last known good profile becomes active again.
pub fn rollback_startup(state: &ProfileState) -> (r: ProfileState)
    ensures
        r@ == rolled_back(state@),
{
    ProfileState {
        version: state.version,
        active: state.last_known_good.clone(),
        pending: None,
        last_known_good: state.last_known_good.clone(),
    }
}

/// Whether a directory entry of `profiles/` is looked at as a profile.
pub fn is_listed_profile_dir(name: &str) -> (r: bool)
    ensures
        r == !(name@ == "node_modules"@ || (name@.len() > 0 && name@[0] == '.')),
{
    if str_eq(name, "node_modules") {
        return false;
    }
    let dot = starts_with(name, ".");
    proof {
        reveal_strlit(".");
        if name@.len() > 0 && name@[0] == '.' {
            assert(name@.subrange(0, 1) =~= "."@);
        }
        if dot {
            assert(name@.subrange(0, 1)[0] == name@[0]);
        }
    }
    !dot
}


/// The state after a successful selection of `name`.
pub open spec fn selected(s: StateView, name: Seq<char>) -> StateView {
    StateView { pending: Some(name), ..s }
}

/// The state after a start.
pub open spec fn started(s: StateView, profiles: Seq<DshProfileSummary>) -> StateView {
    StateView {
        version: s.version,
        active: startup_active(s, profiles),
        pending: None,
        last_known_good: startup_last_known_good(s, profiles),
    }
}

/// The state after a start is committed as healthy.
pub open spec fn committed(s: StateView) -> StateView {
    StateView { last_known_good: s.active, pending: None, ..s }
}

/// The state after a rollback.
pub open spec fn rolled_back(s: StateView) -> StateView {
    StateView { active: s.last_known_good, pending: None, ..s }
}

pub proof fn lemma_default_profile_valid()
    ensures
        valid_profile_name(DEFAULT_PROFILE@),
        DEFAULT_PROFILE@ == seq!['w', 'e', 'b'],
{
    reveal_strlit("web");
    reveal_strlit(".");
    reveal_strlit("..");
    reveal_strlit("node_modules");
    assert(DEFAULT_PROFILE@ == "web"@);
    assert("web"@ != "."@) by {
        assert("web"@.len() != "."@.len());
    }
    assert("web"@ != ".."@) by {
        assert("web"@.len() != ".."@.len());
    }
    assert("web"@ != "node_modules"@) by {
        assert("web"@.len() != "node_modules"@.len());
    }
    assert(!"web"@.contains('/'));
    assert(!"web"@.contains('\\'));
}

/// A profile selected for the next start is the one that start uses, and the start
/// leaves nothing pending.
pub proof fn law_select_then_start_activates(
    s: StateView,
    profiles: Seq<DshProfileSummary>,
    name: Seq<char>,
)
    requires
        valid_profile_name(name),
        listed_web_capable(profiles, name),
    ensures
        started(selected(s, name), profiles).active == name,
        started(selected(s, name), profiles).pending is None,
        selected(s, name).active == s.active,
        selected(s, name).last_known_good == s.last_known_good,
{
}

/// Every start runs a web capable profile (the default one counts as such), leaves
/// nothing pending, and hands the caller the same last known good profile it stores.
pub proof fn law_start_runs_web_capable_profile(s: StateView, profiles: Seq<DshProfileSummary>)
    ensures
        web_capable(profiles, started(s, profiles).active),
        web_capable(profiles, started(s, profiles).last_known_good),
        started(s, profiles).pending is None,
        started(s, profiles).version == s.version,
{
}

/// A start whose pending profile is unusable falls back to the last known good one.
pub proof fn law_start_falls_back_to_last_known_good(s: StateView, profiles: Seq<DshProfileSummary>)
    requires
        s.pending is None || !web_capable(profiles, s.pending->0),
        web_capable(profiles, s.last_known_good),
    ensures
        started(s, profiles).active == s.last_known_good,
{
}

/// A start keeps the last known good profile whenever it is still usable (the default
/// or a discovered web capable profile), so a failed start rolls back to it; only an
/// unusable one is replaced by the default profile.
pub proof fn law_start_keeps_last_known_good(s: StateView, profiles: Seq<DshProfileSummary>)
    ensures
        web_capable(profiles, s.last_known_good) ==> started(s, profiles).last_known_good
            == s.last_known_good,
        web_capable(profiles, s.last_known_good) ==> rolled_back(started(s, profiles)).active
            == s.last_known_good,
        !web_capable(profiles, s.last_known_good) ==> started(s, profiles).last_known_good
            == DEFAULT_PROFILE@,
        s.pending matches Some(p) ==> (web_capable(profiles, p) ==> started(s, profiles).active == p),
{
}

/// Committing a healthy start and then rolling back keeps the committed profile active;
/// rolling back twice is the same as rolling back once.
pub proof fn law_commit_survives_rollback(s: StateView)
    ensures
        rolled_back(committed(s)).active == s.active,
        rolled_back(committed(s)).last_known_good == s.active,
        rolled_back(rolled_back(s)) == rolled_back(s),
{
}

/// A recovered state has the current version and only valid names, and recovering it
/// again changes nothing.
pub proof fn law_sanitized_is_valid_and_stable(s: StateView)
    ensures
        sanitized(s).version == STATE_VERSION,
        valid_profile_name(sanitized(s).active),
        valid_profile_name(sanitized(s).last_known_good),
        sanitized(s).pending matches Some(p) ==> valid_profile_name(p),
        sanitized(sanitized(s)) == sanitized(s),
{
    lemma_default_profile_valid();
}


/// What reading a profile's `package.json` gave.
#[derive(Debug)]
pub enum ManifestRead {
    /// The file could not be read; the text is the error.
    ReadFailed(String),
    /// The file is not valid JSON; the text is the error.
    ParseFailed(String),
    Parsed(JsonValue),
}

pub open spec fn is_object(v: Option<JsonValue>) -> bool {
    v matches Some(JsonValue::Object(_))
}

/// Index of the first element of `items` that is not a string (`items.len()` if none).
pub open spec fn first_non_string(items: Seq<JsonValue>) -> int
    decreases items.len(),
{
    if items.len() == 0 {
        0
    } else if !(items[0] is Str) {
        0
    } else {
        1 + first_non_string(items.drop_first())
    }
}

/// Index of the first element of `items` that is the string `x` (`items.len()` if none).
pub open spec fn first_string_pos(items: Seq<JsonValue>, x: Seq<char>) -> int
    decreases items.len(),
{
    if items.len() == 0 {
        0
    } else if items[0] matches JsonValue::Str(s) && s@ == x {
        0
    } else {
        1 + first_string_pos(items.drop_first(), x)
    }
}

pub proof fn lemma_first_positions(items: Seq<JsonValue>, x: Seq<char>)
    ensures
        0 <= first_non_string(items) <= items.len(),
        0 <= first_string_pos(items, x) <= items.len(),
    decreases items.len(),
{
    if items.len() > 0 {
        lemma_first_positions(items.drop_first(), x);
    }
}

/// Whether the profile can serve `dsh web`, and the problem of its manifest if any.
pub open spec fn manifest_outcome(m: ManifestRead) -> (bool, Option<Seq<char>>) {
    match m {
        ManifestRead::ReadFailed(e) => (false, Some("读取 package.json 失败: "@ + e@)),
        ManifestRead::ParseFailed(e) => (false, Some("package.json 解析失败: "@ + e@)),
        ManifestRead::Parsed(root) => {
            let dsh = field(root, "dsh"@);
            let profile = match dsh {
                Some(d) => field(d, "profile"@),
                None => None,
            };
            let bundles = match profile {
                Some(p) => field(p, "bundles"@),
                None => None,
            };
            if !is_object(dsh) {
                (false, Some("缺少 dsh 配置"@))
            } else if !is_object(profile) {
                (false, Some("缺少 dsh.profile 配置"@))
            } else if !(bundles matches Some(JsonValue::Array(_))) {
                (false, Some("缺少 dsh.profile.bundles"@))
            } else {
                let items = match bundles {
                    Some(JsonValue::Array(v)) => v@,
                    _ => Seq::empty(),
                };
                let bad = first_non_string(items);
                let base = first_string_pos(items, BASE_BUNDLE@);
                let web = first_string_pos(items, WEB_APP_BUNDLE@);
                if bad < items.len() {
                    (false, Some("dsh.profile.bundles["@ + decimal(bad as nat) + "] 必须是字符串"@))
                } else if base < items.len() && web < items.len() && base < web {
                    (true, None)
                } else if base >= items.len() {
                    (false, Some("bundles 缺少 @deepseek-ai/dsh-base"@))
                } else if web >= items.len() {
                    (false, Some("bundles 缺少 @deepseek-ai/dsh-web-app"@))
                } else {
                    (false, Some("@deepseek-ai/dsh-base 必须在 @deepseek-ai/dsh-web-app 之前"@))
                }
            }
        },
    }
}

/// Scans the bundle list: the first non-string index and the first positions of the
/// base and web app bundles.
fn scan_bundles(items: &Vec<JsonValue>) -> (r: (usize, usize, usize))
    ensures
        r.0 == first_non_string(items@),
        r.1 == first_string_pos(items@, BASE_BUNDLE@),
        r.2 == first_string_pos(items@, WEB_APP_BUNDLE@),
{
    let n = items.len();
    let mut bad: usize = n;
    let mut base: usize = n;
    let mut web: usize = n;
    let mut i: usize = n;
    while i > 0
        invariant
            n == items@.len(),
            i <= n,
            bad == i + first_non_string(items@.skip(i as int)),
            base == i + first_string_pos(items@.skip(i as int), BASE_BUNDLE@),
            web == i + first_string_pos(items@.skip(i as int), WEB_APP_BUNDLE@),
        decreases i,
    {
        i = i - 1;
        let ghost rest = items@.skip(i as int);
        assert(rest.drop_first() =~= items@.skip(i + 1));
        assert(rest[0] == items@[i as int]);
        match &items[i] {
            JsonValue::Str(s) => {
                if str_eq(s.as_str(), BASE_BUNDLE) {
                    base = i;
                }
                if str_eq(s.as_str(), WEB_APP_BUNDLE) {
                    web = i;
                }
            },
            _ => {
                bad = i;
            },
        }
    }
    assert(items@.skip(0) =~= items@);
    (bad, base, web)
}

/// The summary of a profile named `name` in directory `dir` from what reading its
/// manifest gave.
pub fn profile_summary(name: String, dir: String, manifest: ManifestRead) -> (r: DshProfileSummary)
    ensures
        r.name == name,
        r.dir == dir,
        r.exists,
        r.web_capable == manifest_outcome(manifest).0,
        opt_view(r.problem) == manifest_outcome(manifest).1,
{
    let ghost m = manifest;
    match manifest {
        ManifestRead::ReadFailed(e) => {
            let mut p = String::from_str("读取 package.json 失败: ");
            p.append(e.as_str());
            invalid_summary(name, dir, p)
        },
        ManifestRead::ParseFailed(e) => {
            let mut p = String::from_str("package.json 解析失败: ");
            p.append(e.as_str());
            invalid_summary(name, dir, p)
        },
        ManifestRead::Parsed(root) => {
            let dsh = get(&root, "dsh");
            let dsh = match dsh {
                Some(d) => match d {
                    JsonValue::Object(_) => d,
                    _ => {
                        return invalid_summary(name, dir, String::from_str("缺少 dsh 配置"));
                    },
                },
                None => {
                    return invalid_summary(name, dir, String::from_str("缺少 dsh 配置"));
                },
            };
            let profile = get(dsh, "profile");
            let profile = match profile {
                Some(p) => match p {
                    JsonValue::Object(_) => p,
                    _ => {
                        return invalid_summary(name, dir, String::from_str("缺少 dsh.profile 配置"));
                    },
                },
                None => {
                    return invalid_summary(name, dir, String::from_str("缺少 dsh.profile 配置"));
                },
            };
            let items = match get(profile, "bundles") {
                Some(JsonValue::Array(v)) => v,
                _ => {
                    return invalid_summary(name, dir, String::from_str("缺少 dsh.profile.bundles"));
                },
            };
            let (bad, base, web) = scan_bundles(items);
            let n = items.len();
            proof {
                lemma_first_positions(items@, BASE_BUNDLE@);
                lemma_first_positions(items@, WEB_APP_BUNDLE@);
            }
            if bad < n {
                let mut p = String::from_str("dsh.profile.bundles[");
                push_decimal(&mut p, bad as u128);
                p.append("] 必须是字符串");
                return invalid_summary(name, dir, p);
            }
            let (web_capable, problem) = if base < n && web < n && base < web {
                (true, None)
            } else if base >= n {
                (false, Some(String::from_str("bundles 缺少 @deepseek-ai/dsh-base")))
            } else if web >= n {
                (false, Some(String::from_str("bundles 缺少 @deepseek-ai/dsh-web-app")))
            } else {
                (
                    false,
                    Some(String::from_str("@deepseek-ai/dsh-base 必须在 @deepseek-ai/dsh-web-app 之前")),
                )
            };
            DshProfileSummary { name, dir, exists: true, web_capable, problem }
        },
    }
}


/// The profiles are in ascending order of name.
pub open spec fn sorted_by_name(s: Seq<DshProfileSummary>) -> bool {
    forall|i: int, j: int| 0 <= i < j < s.len() ==> !seq_lt(#[trigger] s[j].name@, #[trigger] s[i].name@)
}

/// The profiles in ascending order of name (a stable sort).
pub fn sort_profiles(profiles: Vec<DshProfileSummary>) -> (r: Vec<DshProfileSummary>)
    ensures
        sorted_by_name(r@),
        r@.to_multiset() == profiles@.to_multiset(),
{
    broadcast use vstd::seq_lib::to_multiset_build, vstd::seq_lib::to_multiset_insert;

    let mut input = profiles;
    let ghost original = input@;
    let mut out: Vec<DshProfileSummary> = Vec::new();
    let mut i: usize = 0;
    let n = input.len();
    assert(original.take(0) =~= Seq::<DshProfileSummary>::empty());
    while i < n
        invariant
            n == original.len(),
            i <= n,
            input@ == original,
            sorted_by_name(out@),
            out@.to_multiset() == original.take(i as int).to_multiset(),
        decreases n - i,
    {
        let mut p: usize = 0;
        while p < out.len() && !str_lt(input[i].name.as_str(), out[p].name.as_str())
            invariant
                p <= out@.len(),
                input@ == original,
                i < n,
                n == original.len(),
                forall|k: int| 0 <= k < p ==> !seq_lt(original[i as int].name@, #[trigger] out@[k].name@),
            decreases out@.len() - p,
        {
            p = p + 1;
        }
        proof {
            let y = original[i as int];
            if p < out@.len() {
                assert(seq_lt(y.name@, out@[p as int].name@));
            }
            let o = out@;
            let ins = o.insert(p as int, y);
            assert forall|a: int, b: int| 0 <= a < b < ins.len() implies !seq_lt(#[trigger] ins[b].name@, #[trigger] ins[a].name@) by {
                if b < p {
                    assert(ins[a] == o[a] && ins[b] == o[b]);
                } else if b == p {
                    assert(ins[a] == o[a] && ins[b] == y);
                } else if a == p {
                    assert(ins[b] == o[b - 1] && ins[a] == y);
                    if seq_lt(o[b - 1].name@, y.name@) {
                        if b - 1 > p {
                            assert(!seq_lt(o[b - 1].name@, o[p as int].name@));
                            lemma_seq_lt_transitive(o[b - 1].name@, y.name@, o[p as int].name@);
                        } else {
                            lemma_seq_lt_asymmetric(y.name@, o[p as int].name@);
                        }
                    }
                } else if a < p {
                    assert(ins[a] == o[a] && ins[b] == o[b - 1]);
                } else {
                    assert(ins[a] == o[a - 1] && ins[b] == o[b - 1]);
                }
            }
            assert(original.take(i + 1) =~= original.take(i as int).push(y));
        }
        let copied = input[i].copy();
        let ghost before = out@;
        out.insert(p, copied);
        proof {
            vstd::seq_lib::to_multiset_insert(before, p as int, original[i as int]);
            vstd::seq_lib::to_multiset_build(original.take(i as int), original[i as int]);
        }
        i = i + 1;
    }
    assert(original.take(n as int) =~= original);
    out
}

} // verus!
