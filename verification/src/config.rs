//! The shell configuration (`config.json`): where `dsh`, `node` and the dsh home
//! live, the remote plugin presets, and the checks on configured paths.
use crate::runtime::copy_strings;
use crate::text::{has_control, is_control, seq_trim, trim};
use crate::urls::{has_separator, path_is_absolute};
use vstd::prelude::*;

verus! {

/// Where a remote plugin preset comes from. Presets of an external file are fixed
/// and the settings page does not rewrite them.
#[derive(Debug, Clone, Copy, PartialEq, Eq, Structural)]
pub enum RemotePluginSource {
    Local,
    External,
}

impl Default for RemotePluginSource {
    fn default() -> (r: Self)
        ensures
            r == RemotePluginSource::Local,
    {
        RemotePluginSource::Local
    }
}

/// A remote plugin source; at start-up `dsh plugin add <url>` runs for it on the
/// active profile.
#[derive(Debug, Clone, PartialEq, Eq)]
pub struct RemotePluginPreset {
    pub id: String,
    pub url: String,
    pub enabled: bool,
    pub group: String,
    pub source: RemotePluginSource,
}

/// The stored configuration.
#[derive(Debug, Clone, PartialEq)]
pub struct DshConfig {
    pub dsh_bin: Option<String>,
    pub dsh_node: Option<String>,
    pub dsh_home: Option<String>,
    /// File of external remote plugin presets; when unset,
    /// `DSH_DESKTOP_REMOTE_PLUGINS_PATH` is used.
    pub remote_plugins_path: Option<String>,
    pub shortcuts: Vec<String>,
    pub remote_plugins: Vec<RemotePluginPreset>,
}

/// The value a preset takes for `enabled` when the file leaves it out.
pub fn default_enabled() -> (r: bool)
    ensures
        r,
{
    true
}

/// The group a preset takes when the file leaves it out.
pub fn default_remote_group() -> (r: String)
    ensures
        r@ == "default"@,
{
    String::from_str("default")
}

impl RemotePluginPreset {
    /// A copy of the preset.
    pub fn copy(&self) -> (r: Self)
        ensures
            r == *self,
    {
        RemotePluginPreset {
            id: self.id.clone(),
            url: self.url.clone(),
            enabled: self.enabled,
            group: self.group.clone(),
            source: self.source,
        }
    }
}

/// A copy of a list of presets.
pub fn copy_presets(v: &Vec<RemotePluginPreset>) -> (r: Vec<RemotePluginPreset>)
    ensures
        r@ == v@,
{
    let mut out: Vec<RemotePluginPreset> = Vec::new();
    let mut i: usize = 0;
    while i < v.len()
        invariant
            i <= v@.len(),
            out@ == v@.take(i as int),
        decreases v@.len() - i,
    {
        out.push(v[i].copy());
        assert(out@ =~= v@.take(i + 1));
        i = i + 1;
    }
    assert(v@.take(v@.len() as int) =~= v@);
    out
}

impl Default for DshConfig {
    fn default() -> (r: Self)
        ensures
            r.dsh_bin is None,
            r.dsh_node is None,
            r.dsh_home is None,
            r.remote_plugins_path is None,
            r.shortcuts@.len() == 0,
            r.remote_plugins@.len() == 0,
    {
        DshConfig {
            dsh_bin: None,
            dsh_node: None,
            dsh_home: None,
            remote_plugins_path: None,
            shortcuts: Vec::new(),
            remote_plugins: Vec::new(),
        }
    }
}

impl DshConfig {
    /// The configuration in force: each path stored in `config.json` wins over its
    /// environment variable (`DSH_BIN`, `DSH_NODE`, `DSH_HOME`,
    /// `DSH_DESKTOP_REMOTE_PLUGINS_PATH`); `getenv` is asked only for the unset ones.
    pub fn effective(&self, getenv: impl Fn(&str) -> Option<String>) -> (r: Self)
        requires
            forall|k: &str| getenv.requires((k,)),
        ensures
            self.dsh_bin is Some ==> r.dsh_bin == self.dsh_bin,
            self.dsh_bin is None ==> getenv.ensures(("DSH_BIN",), r.dsh_bin),
            self.dsh_node is Some ==> r.dsh_node == self.dsh_node,
            self.dsh_node is None ==> getenv.ensures(("DSH_NODE",), r.dsh_node),
            self.dsh_home is Some ==> r.dsh_home == self.dsh_home,
            self.dsh_home is None ==> getenv.ensures(("DSH_HOME",), r.dsh_home),
            self.remote_plugins_path is Some ==> r.remote_plugins_path == self.remote_plugins_path,
            self.remote_plugins_path is None ==> getenv.ensures(
                ("DSH_DESKTOP_REMOTE_PLUGINS_PATH",),
                r.remote_plugins_path,
            ),
            r.shortcuts@ == self.shortcuts@,
            r.remote_plugins@ == self.remote_plugins@,
    {
        let dsh_bin = match &self.dsh_bin {
            Some(s) => Some(s.clone()),
            None => getenv("DSH_BIN"),
        };
        let dsh_node = match &self.dsh_node {
            Some(s) => Some(s.clone()),
            None => getenv("DSH_NODE"),
        };
        let dsh_home = match &self.dsh_home {
            Some(s) => Some(s.clone()),
            None => getenv("DSH_HOME"),
        };
        let remote_plugins_path = match &self.remote_plugins_path {
            Some(s) => Some(s.clone()),
            None => getenv("DSH_DESKTOP_REMOTE_PLUGINS_PATH"),
        };
        DshConfig {
            dsh_bin,
            dsh_node,
            dsh_home,
            remote_plugins_path,
            shortcuts: copy_strings(&self.shortcuts),
            remote_plugins: copy_presets(&self.remote_plugins),
        }
    }
}

/// What is on disk at a path, as far as the checks need it.
#[derive(Debug, Clone, Copy, PartialEq, Eq, Structural)]
pub enum PathKind {
    Missing,
    File,
    Dir,
    /// Something that exists and is neither a regular file nor a directory.
    Other,
}

/// The verdict on one configured path: it must be a non-blank absolute path
/// without control characters; a binary must be an existing file, a home must be a
/// directory if it exists at all. `absolute` is what the platform says of the path,
/// `kind` what is on disk there.
pub open spec fn path_setting_verdict(
    label: Seq<char>,
    value: Seq<char>,
    require_file: bool,
    absolute: bool,
    kind: PathKind,
) -> Result<(), Seq<char>> {
    if seq_trim(value).len() == 0 || exists|i: int| 0 <= i < value.len() && is_control(#[trigger] value[i]) {
        Err(label + " 路径无效"@)
    } else if !absolute {
        Err(label + " 必须是绝对路径"@)
    } else if require_file && kind != PathKind::File {
        Err(label + " 文件不存在: "@ + value)
    } else if !require_file && kind != PathKind::Missing && kind != PathKind::Dir {
        Err(label + " 不是目录: "@ + value)
    } else {
        Ok(())
    }
}

/// The message text of a verdict, as a `Result` of strings.
pub open spec fn verdict_matches(r: Result<(), String>, v: Result<(), Seq<char>>) -> bool {
    match v {
        Ok(()) => r is Ok,
        Err(m) => r matches Err(e) && e@ == m,
    }
}

/// `label`, then `tail`, as a new string.
fn labelled(label: &str, tail: &str) -> (r: String)
    ensures
        r@ == label@ + tail@,
{
    let mut s = String::from_str(label);
    s.append(tail);
    s
}

/// Checks one configured path, given whether it is absolute on this platform and
/// what is on disk there.
pub fn check_config_path_setting(label: &str, value: &str, require_file: bool, absolute: bool, kind: PathKind) -> (r:
    Result<(), String>)
    ensures
        verdict_matches(r, path_setting_verdict(label@, value@, require_file, absolute, kind)),
{
    if trim(value).unicode_len() == 0 || has_control(value) {
        return Err(labelled(label, " 路径无效"));
    }
    if !absolute {
        return Err(labelled(label, " 必须是绝对路径"));
    }
    if require_file && kind != PathKind::File {
        let mut m = labelled(label, " 文件不存在: ");
        m.append(value);
        return Err(m);
    }
    if !require_file && kind != PathKind::Missing && kind != PathKind::Dir {
        let mut m = labelled(label, " 不是目录: ");
        m.append(value);
        return Err(m);
    }
    Ok(())
}

/// Checks one configured path (`kind` is what is on disk at `value`); whether it is
/// absolute is asked of the platform.
pub fn validate_config_path_setting(label: &str, value: &str, require_file: bool, kind: PathKind) -> (r:
    Result<(), String>)
    ensures
        exists|absolute: bool| (absolute ==> has_separator(value@)) && verdict_matches(
            r,
            path_setting_verdict(label@, value@, require_file, absolute, kind),
        ),
{
    let absolute = path_is_absolute(value);
    check_config_path_setting(label, value, require_file, absolute, kind)
}

/// The verdict on an optional configured path: none when it is unset.
pub open spec fn optional_verdict(
    label: Seq<char>,
    value: Option<String>,
    require_file: bool,
    absolute: bool,
    kind: PathKind,
) -> Result<(), Seq<char>> {
    match value {
        Some(v) => path_setting_verdict(label, v@, require_file, absolute, kind),
        None => Ok(()),
    }
}

/// The platform's answer is possible for an optional path.
pub open spec fn possible_absolute(value: Option<String>, absolute: bool) -> bool {
    match value {
        Some(v) => absolute ==> has_separator(v@),
        None => true,
    }
}

/// The verdict on the three configured paths, checked in the order binary, node,
/// home; the first failure is reported.
pub open spec fn config_paths_verdict(
    config: DshConfig,
    absolute: (bool, bool, bool),
    kinds: (PathKind, PathKind, PathKind),
) -> Result<(), Seq<char>> {
    let bin = optional_verdict("DSH_BIN"@, config.dsh_bin, true, absolute.0, kinds.0);
    let node = optional_verdict("DSH_NODE"@, config.dsh_node, true, absolute.1, kinds.1);
    let home = optional_verdict("DSH_HOME"@, config.dsh_home, false, absolute.2, kinds.2);
    if bin is Err {
        bin
    } else if node is Err {
        node
    } else {
        home
    }
}

/// Checks the paths of a configuration before it is saved; each kind is what is on
/// disk at the corresponding path (ignored where the path is unset).
pub fn validate_config_paths(
    config: &DshConfig,
    bin_kind: PathKind,
    node_kind: PathKind,
    home_kind: PathKind,
) -> (r: Result<(), String>)
    ensures
        exists|absolute: (bool, bool, bool)|
            possible_absolute(config.dsh_bin, absolute.0) && possible_absolute(config.dsh_node, absolute.1)
                && possible_absolute(config.dsh_home, absolute.2) && verdict_matches(
                r,
                config_paths_verdict(*config, absolute, (bin_kind, node_kind, home_kind)),
            ),
{
    let bin_abs = match &config.dsh_bin {
        Some(v) => path_is_absolute(v.as_str()),
        None => false,
    };
    let node_abs = match &config.dsh_node {
        Some(v) => path_is_absolute(v.as_str()),
        None => false,
    };
    let home_abs = match &config.dsh_home {
        Some(v) => path_is_absolute(v.as_str()),
        None => false,
    };
    let r = check_config_paths(config, (bin_abs, node_abs, home_abs), (bin_kind, node_kind, home_kind));
    assert(possible_absolute(config.dsh_bin, bin_abs) && possible_absolute(config.dsh_node, node_abs)
        && possible_absolute(config.dsh_home, home_abs));
    r
}

/// Checks the paths of a configuration, given what the platform says of each path
/// (absolute or not) and what is on disk there.
pub fn check_config_paths(
    config: &DshConfig,
    absolute: (bool, bool, bool),
    kinds: (PathKind, PathKind, PathKind),
) -> (r: Result<(), String>)
    ensures
        verdict_matches(r, config_paths_verdict(*config, absolute, kinds)),
{
    match &config.dsh_bin {
        Some(v) => {
            let c = check_config_path_setting("DSH_BIN", v.as_str(), true, absolute.0, kinds.0);
            if c.is_err() {
                return c;
            }
        },
        None => {},
    }
    match &config.dsh_node {
        Some(v) => {
            let c = check_config_path_setting("DSH_NODE", v.as_str(), true, absolute.1, kinds.1);
            if c.is_err() {
                return c;
            }
        },
        None => {},
    }
    match &config.dsh_home {
        Some(v) => check_config_path_setting("DSH_HOME", v.as_str(), false, absolute.2, kinds.2),
        None => Ok(()),
    }
}

} // verus!
