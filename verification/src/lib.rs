//! Verified core of the Road to Riches companion: route model, CSV grouping,
//! journal scanning, translations and update decisions.

pub mod constants;
pub mod text;
pub mod travel;
pub mod csv_logic;
pub mod log_watcher;
pub mod tracking;
pub mod settings;
pub mod i18n;
pub mod history;
pub mod update;
pub mod sound;
