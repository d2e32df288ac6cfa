use vstd::prelude::*;

use crate::drivers::onedrive::OnedriveConfig;

verus! {

/// Address of the search service and the key that authorises it.
pub struct SearchConfig {
    pub host: String,
    pub api_key: String,
}

/// An account at a storage provider.
pub enum Account {
    Onedrive(OnedriveConfig),
}

/// The server's configuration.
pub struct Config {
    pub search: SearchConfig,
    pub account: Vec<Account>,
    pub listen: String,
    pub port: u16,
    pub refresh_time: i64,
}

/// The command line: where the configuration file is.
pub struct Args {
    pub config_file: String,
}

/// The address the server listens on when the configuration names none.
pub fn default_listen() -> (r: String)
    ensures
        r@ == "127.0.0.1"@,
{
    "127.0.0.1".to_string()
}

/// The port the server listens on when the configuration names none.
pub fn default_port() -> (r: u16)
    ensures
        r == 8080,
{
    8080
}

/// Seconds between two refreshes of the provider credentials, by default.
pub fn default_refresh_time() -> (r: i64)
    ensures
        r == 3600,
{
    3600
}

} // verus!
