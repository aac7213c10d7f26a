//! The desktop run mode read from `$DSH_HOME/settings.yaml`.
use crate::json::{JsonValue, field, get, get_opt, as_str, opt_field, str_of};
use crate::text::str_eq;
use vstd::prelude::*;

verus! {

/// The desktop run mode.
#[derive(Debug, Clone, Copy, PartialEq, Eq, Structural)]
pub enum DesktopMode {
    Compatibility,
    Advanced,
}

/// The name of a mode.
pub open spec fn mode_name(mode: DesktopMode) -> Seq<char> {
    match mode {
        DesktopMode::Compatibility => "compatibility"@,
        DesktopMode::Advanced => "advanced"@,
    }
}

impl DesktopMode {
    pub fn as_str(self) -> (r: &'static str)
        ensures
            r@ == mode_name(self),
    {
        match self {
            DesktopMode::Compatibility => "compatibility",
            DesktopMode::Advanced => "advanced",
        }
    }
}

/// The mode a settings document asks for: `advanced` when `dsh-desktop.mode` is the
/// string `advanced`, compatibility for anything else.
pub open spec fn mode_of_settings(doc: JsonValue) -> DesktopMode {
    if str_of(opt_field(field(doc, "dsh-desktop"@), "mode"@)) == Some("advanced"@) {
        DesktopMode::Advanced
    } else {
        DesktopMode::Compatibility
    }
}

/// The mode of a parsed `settings.yaml`.
pub fn desktop_mode_from_settings(doc: &JsonValue) -> (r: DesktopMode)
    ensures
        r == mode_of_settings(*doc),
{
    let section = get(doc, "dsh-desktop");
    let mode = as_str(get_opt(section, "mode"));
    match mode {
        Some(m) => if str_eq(m, "advanced") {
            DesktopMode::Advanced
        } else {
            DesktopMode::Compatibility
        },
        None => DesktopMode::Compatibility,
    }
}

} // verus!
