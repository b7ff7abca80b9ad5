//! Application-wide constants.

use vstd::prelude::*;

verus! {

/// Status text stored in the CSV for unfinished bodies.
pub const STATUS_INCOMPLETE: &'static str = "";

/// Status text stored in the CSV for bodies marked as done.
pub const STATUS_COMPLETED: &'static str = "erledigt";

/// How often the Elite journal files are polled, in seconds.
pub const LOG_CHECK_INTERVAL_SECS: u64 = 2;

/// How long the "Copied!" message stays visible, in milliseconds.
pub const COPY_FEEDBACK_DURATION_MS: u64 = 800;

/// File name of the application configuration.
pub const SETTINGS_FILENAME: &'static str = "settings.json";

} // verus!
