//! The `desktop` section of `settings.yaml` and the start-up window mode.
use crate::text::str_eq;
use vstd::prelude::*;

verus! {

/// The `desktop` section of `settings.yaml` (camelCase keys; missing keys stay unset).
#[derive(Debug)]
pub struct DesktopSection {
    pub autostart: Option<bool>,
    pub startup_mode: Option<String>,
}

impl Default for DesktopSection {
    fn default() -> (r: Self)
        ensures
            r.autostart is None,
            r.startup_mode is None,
    {
        DesktopSection { autostart: None, startup_mode: None }
    }
}

/// How the main window appears at start-up.
#[derive(Debug, Clone, Copy, PartialEq, Eq, Structural)]
pub enum StartupMode {
    Normal,
    Tray,
    Minimized,
}

impl Default for StartupMode {
    fn default() -> (r: Self)
        ensures
            r == StartupMode::Normal,
    {
        StartupMode::Normal
    }
}

/// The desktop settings the settings page shows and saves.
#[derive(Debug, Clone, PartialEq)]
pub struct DesktopSettings {
    pub autostart: bool,
    pub startup_mode: StartupMode,
}

/// The start-up mode a section asks for: `tray` and `minimized` are recognised,
/// anything else (or nothing) means a normal window.
pub open spec fn startup_mode_of(mode: Option<Seq<char>>) -> StartupMode {
    match mode {
        Some(m) => if m == "tray"@ {
            StartupMode::Tray
        } else if m == "minimized"@ {
            StartupMode::Minimized
        } else {
            StartupMode::Normal
        },
        None => StartupMode::Normal,
    }
}

pub fn startup_mode(section: &DesktopSection) -> (r: StartupMode)
    ensures
        r == startup_mode_of(
            match section.startup_mode {
                Some(s) => Some(s@),
                None => None,
            },
        ),
{
    match &section.startup_mode {
        Some(m) => {
            if str_eq(m.as_str(), "tray") {
                StartupMode::Tray
            } else if str_eq(m.as_str(), "minimized") {
                StartupMode::Minimized
            } else {
                StartupMode::Normal
            }
        },
        None => StartupMode::Normal,
    }
}

/// The start-up mode in force: the one saved by the settings page, else the one the
/// `desktop` section of `settings.yaml` asks for (when that file was read), else a
/// normal window.
pub fn effective_startup_mode(saved: Option<StartupMode>, section: Option<&DesktopSection>) -> (r: StartupMode)
    ensures
        saved matches Some(m) ==> r == m,
        saved is None && section is Some ==> r == startup_mode_of(
            match section->0.startup_mode {
                Some(s) => Some(s@),
                None => None,
            },
        ),
        saved is None && section is None ==> r == StartupMode::Normal,
{
    match saved {
        Some(m) => m,
        None => match section {
            Some(s) => startup_mode(s),
            None => StartupMode::Normal,
        },
    }
}

/// How the main window appears when the application starts.
#[derive(Debug, Clone, Copy, PartialEq, Eq, Structural)]
pub enum LaunchWindow {
    Shown,
    Minimized,
    /// Hidden, with only the tray icon.
    InTray,
}

/// The window at launch: only a start by the system's autostart follows the
/// start-up mode; a start by the user always shows the window.
pub fn launch_window(autostart_requested: bool, mode: StartupMode) -> (r: LaunchWindow)
    ensures
        !autostart_requested ==> r == LaunchWindow::Shown,
        autostart_requested ==> r == match mode {
            StartupMode::Normal => LaunchWindow::Shown,
            StartupMode::Minimized => LaunchWindow::Minimized,
            StartupMode::Tray => LaunchWindow::InTray,
        },
{
    if !autostart_requested {
        return LaunchWindow::Shown;
    }
    match mode {
        StartupMode::Normal => LaunchWindow::Shown,
        StartupMode::Minimized => LaunchWindow::Minimized,
        StartupMode::Tray => LaunchWindow::InTray,
    }
}

} // verus!
