//! Configuration of the administration service: the ports, host and
//! paths it serves from, with the defaults used when a setting is
//! absent.

use vstd::prelude::*;

verus! {

/// The directory the platform keeps its state under by default.
pub const DEFAULT_HOME_DIR: &'static str = "./.dozer";

/// Settings of the administration service.
#[derive(Clone, PartialEq, Eq, Debug)]
pub struct AdminCliConfig {
    pub ui_port: u32,
    pub port: u32,
    pub host: String,
    pub cors: bool,
    pub home_dir: String,
    pub ui_path: String,
}

impl Default for AdminCliConfig {
    /// The defaults every absent setting falls back to.
    fn default() -> (r: Self)
        ensures
            r.port == 8081,
            r.ui_port == 3000,
            r.host@ == "[::0]"@,
            r.cors,
            r.home_dir@ == "./.dozer"@,
            r.ui_path@ == "./ui"@,
    {
        AdminCliConfig {
            port: 8081,
            ui_port: 3000,
            host: String::from_str("[::0]"),
            cors: true,
            home_dir: String::from_str(DEFAULT_HOME_DIR),
            ui_path: String::from_str("./ui"),
        }
    }
}

} // verus!
