//! The settings of the application.

use vstd::prelude::*;

verus! {

/// The settings of the application.
#[derive(Debug, Clone, PartialEq, Eq)]
pub struct Config {
    pub watched_folder: Option<String>,
    /// Launch Papervault when Windows starts.
    pub start_with_windows: bool,
    /// Minimize to system tray on window close instead of exiting.
    pub minimize_to_tray: bool,
}

/// Closing the window minimizes it to the tray, unless the settings say otherwise.
pub fn default_minimize_to_tray() -> (r: bool)
    ensures
        r,
{
    true
}

impl Default for Config {
    fn default() -> (r: Self)
        ensures
            r.watched_folder is None,
            !r.start_with_windows,
            r.minimize_to_tray,
    {
        Config {
            watched_folder: None,
            start_with_windows: false,
            minimize_to_tray: default_minimize_to_tray(),
        }
    }
}

/// What is to be done so that the application starts with the system as the
/// settings say: switch it on, switch it off, or nothing.
pub fn launch_change(start_with_windows: bool, is_enabled: bool) -> (r: Option<bool>)
    ensures
        r == if start_with_windows == is_enabled {
            None
        } else {
            Some(start_with_windows)
        },
{
    if start_with_windows == is_enabled {
        None
    } else {
        Some(start_with_windows)
    }
}

/// What is done about starting with the system leads to what the settings say, and nothing
/// is done where that holds already.
pub proof fn settings_are_carried_out(wanted: bool, enabled: bool, r: Option<bool>)
    requires
        call_ensures(launch_change, (wanted, enabled), r),
    ensures
        r is Some <==> wanted != enabled,
        r is Some ==> r->0 == wanted,
{
}

} // verus!
