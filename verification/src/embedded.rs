//! Embedded plugins: which plugin packages shipped with the shell are mounted into
//! the dsh profiles, when an installed copy can be reused, and the `--patch`
//! overlay that makes `dsh web` load them. Copying the files is left to the caller.
use crate::json::{JsonValue, as_str, field, get, get_opt, opt_deref, opt_field, str_of};
use crate::paths::{join_path, joined_with_separator, plain_component, verbatim};
use crate::text::{seq_ends_with, str_eq, to_string};
use vstd::prelude::*;

verus! {

/// An embedded plugin that is mounted (what the overlay needs).
#[derive(Debug, Clone, PartialEq, Eq)]
pub struct MountedPlugin {
    pub id: String,
    pub name: String,
}

/// What the shell reads of a plugin's `package.json`.
#[derive(Debug, Clone, PartialEq, Eq)]
pub struct PluginPackage {
    /// `dshDesktop.id`.
    pub id: String,
    /// The npm package name.
    pub name: String,
    /// The package version (empty when the manifest has none).
    pub version: String,
}

/// Why a plugin directory is skipped.
#[derive(Debug, Clone, Copy, PartialEq, Eq, Structural)]
pub enum ManifestProblem {
    /// `package.json` has no string `dshDesktop.id`.
    MissingId,
    /// `package.json` has no string `name`.
    MissingName,
}

/// The package a manifest describes, or why it is skipped: the id is looked at
/// first, then the name; a missing version reads as empty.
pub open spec fn package_of(manifest: JsonValue) -> Result<(Seq<char>, Seq<char>, Seq<char>), ManifestProblem> {
    match str_of(opt_field(field(manifest, "dshDesktop"@), "id"@)) {
        None => Err(ManifestProblem::MissingId),
        Some(id) => match str_of(field(manifest, "name"@)) {
            None => Err(ManifestProblem::MissingName),
            Some(name) => Ok(
                (
                    id,
                    name,
                    match str_of(field(manifest, "version"@)) {
                        Some(v) => v,
                        None => Seq::empty(),
                    },
                ),
            ),
        },
    }
}

pub fn plugin_package(manifest: &JsonValue) -> (r: Result<PluginPackage, ManifestProblem>)
    ensures
        match package_of(*manifest) {
            Ok((id, name, version)) => r matches Ok(p) && p.id@ == id && p.name@ == name && p.version@ == version,
            Err(problem) => r == Err::<PluginPackage, ManifestProblem>(problem),
        },
{
    let id = match as_str(get_opt(get(manifest, "dshDesktop"), "id")) {
        Some(id) => id,
        None => return Err(ManifestProblem::MissingId),
    };
    let name = match as_str(get(manifest, "name")) {
        Some(name) => name,
        None => return Err(ManifestProblem::MissingName),
    };
    let version = match as_str(get(manifest, "version")) {
        Some(v) => to_string(v),
        None => String::new(),
    };
    Ok(PluginPackage { id: to_string(id), name: to_string(name), version })
}

/// The installed copy's manifest (`None` when it cannot be read or parsed) carries
/// exactly `version`.
pub open spec fn has_version(installed: Option<JsonValue>, version: Seq<char>) -> bool {
    match installed {
        Some(m) => str_of(field(m, "version"@)) == Some(version),
        None => false,
    }
}

pub fn target_has_version(installed: Option<&JsonValue>, version: &str) -> (r: bool)
    ensures
        r == has_version(opt_deref(installed), version@),
{
    match installed {
        Some(m) => match as_str(get(m, "version")) {
            Some(v) => str_eq(v, version),
            None => false,
        },
        None => false,
    }
}

/// Whether the installed copy is kept as it is: never when re-installing is forced
/// (development builds), else when its version is the packaged one.
pub fn reuse_installed(force: bool, installed: Option<&JsonValue>, version: &str) -> (r: bool)
    ensures
        r == (!force && has_version(opt_deref(installed), version@)),
{
    !force && target_has_version(installed, version)
}

/// The overlay entry that mounts one plugin; the name is single-quoted because `@`
/// is reserved in YAML.
pub open spec fn overlay_block(id: Seq<char>, name: Seq<char>) -> Seq<char> {
    "- insert:\n    - id: "@ + id + "\n      name: '"@ + name + "'\n"@
}

pub open spec fn overlay_text(mounted: Seq<MountedPlugin>) -> Seq<char>
    decreases mounted.len(),
{
    if mounted.len() == 0 {
        Seq::empty()
    } else {
        overlay_text(mounted.drop_last()) + overlay_block(mounted.last().id@, mounted.last().name@)
    }
}

/// The overlay for the mounted plugins, one entry per plugin in order; `None` when
/// nothing is mounted (no overlay is written then).
pub fn overlay_content(mounted: &[MountedPlugin]) -> (r: Option<String>)
    ensures
        mounted@.len() == 0 ==> r is None,
        mounted@.len() > 0 ==> (r matches Some(t) && t@ == overlay_text(mounted@)),
{
    if mounted.len() == 0 {
        return None;
    }
    let mut out = String::new();
    let mut i: usize = 0;
    while i < mounted.len()
        invariant
            i <= mounted@.len(),
            out@ == overlay_text(mounted@.take(i as int)),
        decreases mounted@.len() - i,
    {
        let ghost before = out@;
        out.append("- insert:\n    - id: ");
        out.append(mounted[i].id.as_str());
        out.append("\n      name: '");
        out.append(mounted[i].name.as_str());
        out.append("'\n");
        proof {
            let t = mounted@.take(i + 1);
            assert(t.drop_last() =~= mounted@.take(i as int));
            assert(t.last() == mounted@[i as int]);
            assert(out@ =~= before + overlay_block(mounted@[i as int].id@, mounted@[i as int].name@));
        }
        i = i + 1;
    }
    assert(mounted@.take(mounted@.len() as int) =~= mounted@);
    Some(out)
}

/// The directory that holds the embedded plugins' `plugins` folder: in development
/// builds the source tree's `resources` (under `manifest_dir`), else the bundled
/// `resources` under the application's resource directory, if it has one.
pub fn plugins_resource_dir(debug: bool, manifest_dir: &str, resource_dir: Option<&str>) -> (r: Option<String>)
    ensures
        r is Some <==> (debug || resource_dir is Some),
        r matches Some(dir) ==> seq_ends_with(dir@, "resources"@),
        debug && !verbatim(manifest_dir@) ==> (r matches Some(dir) && joined_with_separator(
            manifest_dir@,
            "resources"@,
            dir@,
        )),
        !debug && resource_dir is Some && !verbatim(resource_dir->0@) ==> (r matches Some(dir)
            && joined_with_separator(resource_dir->0@, "resources"@, dir@)),
{
    proof {
        reveal_strlit("resources");
        reveal_strlit(".");
        reveal_strlit("..");
        let r = "resources"@;
        assert(r.len() == 9);
        assert(r != "."@ && r != ".."@);
        assert forall|i: int| 0 <= i < r.len() implies #[trigger] r[i] != '/' && r[i] != '\\' && r[i] != ':' by {
            assert(r[i] == 'r' || r[i] == 'e' || r[i] == 's' || r[i] == 'o' || r[i] == 'u' || r[i] == 'c');
        }
        assert(plain_component("resources"@));
    }
    if debug {
        Some(join_path(manifest_dir, "resources"))
    } else {
        match resource_dir {
            Some(base) => Some(join_path(base, "resources")),
            None => None,
        }
    }
}

} // verus!
