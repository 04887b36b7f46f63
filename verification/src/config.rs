//! Configuration values, read once at startup by the process glue and
//! handed in as plain values.

use vstd::prelude::*;

verus! {

/// Everything the clipper needs from its environment: display name,
/// output directory, the prefix of public links, and the two bounds.
#[derive(Debug, Clone)]
pub struct AppConfig {
    pub app_name: String,
    pub out_path: String,
    pub public_link_prefix: String,
    pub max_clip_duration: u64,
    pub max_queue_size: usize,
}

impl AppConfig {
    /// The queue capacity must be positive.
    pub open spec fn wf(self) -> bool {
        self.max_queue_size >= 1
    }
}

/// What the web tier shows of the configuration.
#[derive(Debug, Clone)]
pub struct Config {
    pub app_name: String,
    pub search_enabled: bool,
}

impl Default for Config {
    /// The default configuration: the stock application name, search
    /// disabled.
    fn default() -> (c: Config)
        ensures
            c.app_name@ == "Media Server Clipper"@,
            !c.search_enabled,
    {
        Config { app_name: String::from_str("Media Server Clipper"), search_enabled: false }
    }
}

} // verus!
