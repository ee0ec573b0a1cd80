//! Where the compositor's configuration lives, and whether to add the
//! include line for the generated fragment.

use vstd::prelude::*;

verus! {

/// Paths may start with `~/` for the home directory.
#[derive(Clone, Debug)]
pub struct AppSettings {
    /// The generated fragment.
    pub monitors_conf_path: String,
    /// The compositor's main configuration file.
    pub config_conf_path: String,
    /// The backup of the rules that stood before the first save.
    pub monitors_bak_path: String,
    /// Whether saving adds an include line for the fragment to the main file.
    pub auto_append_source: bool,
}

impl Default for AppSettings {
    fn default() -> (r: Self)
        ensures
            r.monitors_conf_path@ == "~/.config/mango/monitors.conf"@,
            r.config_conf_path@ == "~/.config/mango/config.conf"@,
            r.monitors_bak_path@ == "~/.config/mango/monitors.bak"@,
            r.auto_append_source,
    {
        AppSettings {
            monitors_conf_path: "~/.config/mango/monitors.conf".to_string(),
            config_conf_path: "~/.config/mango/config.conf".to_string(),
            monitors_bak_path: "~/.config/mango/monitors.bak".to_string(),
            auto_append_source: true,
        }
    }
}

} // verus!
