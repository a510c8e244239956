//! Runtime options of a search.
use vstd::prelude::*;

verus! {

/// The scan depth used when none is given.
pub const DEFAULT_SCAN_DEPTH: usize = 5;

/// The runtime options of a search.
#[derive(Debug, PartialEq, Eq, Structural)]
pub struct Config {
    /// How many directory levels below the starting directory are scanned.
    pub directory_scan_depth: usize,
}

impl Default for Config {
    /// The options with the default scan depth.
    fn default() -> (r: Self)
        ensures
            r.directory_scan_depth == DEFAULT_SCAN_DEPTH,
    {
        Config { directory_scan_depth: DEFAULT_SCAN_DEPTH }
    }
}

impl Config {
    /// The options with scan depth `directory_scan_depth`, or the default
    /// depth where none is given.
    pub fn new(directory_scan_depth: Option<usize>) -> (r: Self)
        ensures
            r.directory_scan_depth == match directory_scan_depth {
                Some(d) => d,
                None => DEFAULT_SCAN_DEPTH,
            },
    {
        let default_config = Config::default();
        Config {
            directory_scan_depth: match directory_scan_depth {
                Some(d) => d,
                None => default_config.directory_scan_depth,
            },
        }
    }
}

} // verus!
