//! Command-line options and small display helpers.

use vstd::prelude::*;

verus! {

/// Command-line options of the proxy.
pub struct Args {
    /// Force an update of the application.
    pub update: bool,
    /// Load keys from this file.
    pub file: Option<String>,
    /// An alternative configuration file.
    pub config: Option<String>,
    /// Where logs go.
    pub log_dir: Option<String>,
}

/// `Enabled` or `Disabled`, for start-up and request logs.
pub fn enabled(flag: bool) -> (r: &'static str)
    ensures
        flag ==> r@ == "Enabled"@,
        !flag ==> r@ == "Disabled"@,
{
    if flag {
        "Enabled"
    } else {
        "Disabled"
    }
}

} // verus!
