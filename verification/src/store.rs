//! Application settings.
use vstd::prelude::*;

verus! {

/// The settings of the application.
#[derive(Debug, Clone)]
pub struct AppSettings {
    /// Closing the main window hides it to the tray (else the application
    /// quits).
    pub minimize_to_tray: bool,
    /// Where connections are exported (none: the download folder).
    pub export_dir: Option<String>,
}

impl Default for AppSettings {
    /// Hide to the tray; no export folder.
    fn default() -> (s: Self)
        ensures
            s.minimize_to_tray,
            s.export_dir is None,
    {
        AppSettings { minimize_to_tray: true, export_dir: None }
    }
}

/// The settings to store when the user saves `new` over `prev`: the export
/// folder, which has no field of its own in the settings page, is kept when
/// `new` leaves it unset.
pub fn merge_settings(new: AppSettings, prev: AppSettings) -> (r: AppSettings)
    ensures
        r.minimize_to_tray == new.minimize_to_tray,
        r.export_dir == match new.export_dir {
            Some(d) => Some(d),
            None => prev.export_dir,
        },
{
    match new.export_dir {
        Some(d) => AppSettings { minimize_to_tray: new.minimize_to_tray, export_dir: Some(d) },
        None => AppSettings { minimize_to_tray: new.minimize_to_tray, export_dir: prev.export_dir },
    }
}

} // verus!
