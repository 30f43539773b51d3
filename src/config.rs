//! Application preferences and their defaults.
use vstd::prelude::*;

verus! {

/// The application's preferences.
#[derive(Debug, Clone, PartialEq)]
pub struct Configs {
    /// Seconds between automatic saves.
    pub auto_save_interval: u32,
    /// The colour given to new lists, as `#RRGGBB`.
    pub new_list_default_color: String,
}

impl Default for Configs {
    /// The preferences used when none were saved: a save every 60 seconds
    /// and light blue lists.
    fn default() -> (r: Configs)
        ensures
            r.auto_save_interval == 60,
            r.new_list_default_color@ == "#B6DFFF"@,
    {
        Configs { auto_save_interval: 60, new_list_default_color: "#B6DFFF".to_owned() }
    }
}

} // verus!
