//! Settings logic: the operating-system mode for finding the journal, and
//! the checks on configured paths.

use vstd::prelude::*;
use vstd::string::StringExecFns;
use crate::text::str_eq;

verus! {

broadcast use vstd::string::group_string_axioms;

/// Operating system mode for locating the Elite journal files.
#[derive(Debug, Clone, Copy, PartialEq, Eq, Structural)]
pub enum OsMode {
    Windows,
    Linux,
    Custom,
}

/// The name under which a mode is stored in the settings file.
pub open spec fn os_mode_name(m: OsMode) -> Seq<char> {
    match m {
        OsMode::Windows => "Windows"@,
        OsMode::Linux => "Linux"@,
        OsMode::Custom => "Custom"@,
    }
}

/// The mode stored under the name `s`, if `s` names one.
pub open spec fn os_mode_named(s: Seq<char>) -> Option<OsMode> {
    if s == "Windows"@ {
        Some(OsMode::Windows)
    } else if s == "Linux"@ {
        Some(OsMode::Linux)
    } else if s == "Custom"@ {
        Some(OsMode::Custom)
    } else {
        None
    }
}

/// A mode read back from the name it is stored under is the mode itself.
pub proof fn lemma_os_mode_name_roundtrip(m: OsMode)
    ensures
        os_mode_named(os_mode_name(m)) == Some(m),
{
    reveal_strlit("Windows");
    reveal_strlit("Linux");
    reveal_strlit("Custom");
    assert("Windows"@.len() == 7 && "Linux"@.len() == 5 && "Custom"@.len() == 6);
}

/// The mode that a platform whose main path separator is `sep` starts in:
/// Windows where paths are separated by a backslash, Linux elsewhere.
pub open spec fn default_mode_for(sep: char) -> OsMode {
    if sep == '\\' {
        OsMode::Windows
    } else {
        OsMode::Linux
    }
}

/// Reads `std::path::MAIN_SEPARATOR`, the path separator of the platform the
/// program was built for ('\\' on Windows, '/' on Unix). It depends on the
/// build target, so nothing is stated of it.
#[verifier::external_body]
fn platform_separator() -> char {
    std::path::MAIN_SEPARATOR
}

impl OsMode {
    /// The mode for a platform whose main path separator is `sep`.
    pub fn default_for_separator(sep: char) -> (r: OsMode)
        ensures
            r == default_mode_for(sep),
    {
        if sep == '\\' {
            OsMode::Windows
        } else {
            OsMode::Linux
        }
    }

    /// The name of the mode, as stored in the settings file.
    pub fn to_str(&self) -> (r: &'static str)
        ensures
            r@ == os_mode_name(*self),
    {
        match self {
            OsMode::Windows => "Windows",
            OsMode::Linux => "Linux",
            OsMode::Custom => "Custom",
        }
    }

    /// The mode named `s`; an unknown name gives the platform's default mode.
    pub fn from_str(s: &str) -> (r: OsMode)
        ensures
            match os_mode_named(s@) {
                Some(m) => r == m,
                None => r == OsMode::Windows || r == OsMode::Linux,
            },
    {
        proof {
            reveal_strlit("Windows");
            reveal_strlit("Linux");
            reveal_strlit("Custom");
            assert("Windows"@.len() == 7 && "Linux"@.len() == 5 && "Custom"@.len() == 6);
        }
        if str_eq(s, "Windows") {
            OsMode::Windows
        } else if str_eq(s, "Linux") {
            OsMode::Linux
        } else if str_eq(s, "Custom") {
            OsMode::Custom
        } else {
            OsMode::default()
        }
    }
}

impl Default for OsMode {
    /// Windows on Windows builds, Linux elsewhere.
    fn default() -> (r: OsMode)
        ensures
            r == OsMode::Windows || r == OsMode::Linux,
    {
        OsMode::default_for_separator(platform_separator())
    }
}

/// Where the journal files are looked for.
pub enum JournalLocation {
    /// The directory the user chose (custom mode).
    Manual(String),
    /// This directory below the user's home directory.
    UnderHome(&'static str),
    /// Nowhere: custom mode without a chosen directory.
    Unknown,
}

/// The directory below the home directory that holds the journal in mode `m`.
pub open spec fn journal_subdir_of(m: OsMode) -> Option<Seq<char>> {
    match m {
        OsMode::Windows => Some("Saved Games/Frontier Developments/Elite Dangerous"@),
        OsMode::Linux => Some(
            ".steam/steam/steamapps/compatdata/359320/pfx/drive_c/users/steamuser/Saved Games/Frontier Developments/Elite Dangerous"@,
        ),
        OsMode::Custom => None,
    }
}

/// Chooses where to look for the journal: in custom mode the directory the
/// user chose (nowhere when none is chosen); in Windows and Linux mode the
/// game's default directory for that system, whatever directory is stored.
pub fn journal_location(manual_dir: &str, os_mode: OsMode) -> (r: JournalLocation)
    ensures
        os_mode == OsMode::Custom && manual_dir@.len() > 0 ==> (r matches JournalLocation::Manual(d)
            && d@ == manual_dir@),
        os_mode == OsMode::Custom && manual_dir@.len() == 0 ==> r is Unknown,
        os_mode != OsMode::Custom ==> (r matches JournalLocation::UnderHome(d) && Some(d@)
            == journal_subdir_of(os_mode)),
{
    match os_mode {
        OsMode::Windows => JournalLocation::UnderHome("Saved Games/Frontier Developments/Elite Dangerous"),
        OsMode::Linux => JournalLocation::UnderHome(
            ".steam/steam/steamapps/compatdata/359320/pfx/drive_c/users/steamuser/Saved Games/Frontier Developments/Elite Dangerous",
        ),
        OsMode::Custom => if manual_dir.is_empty() {
            JournalLocation::Unknown
        } else {
            JournalLocation::Manual(manual_dir.to_owned())
        },
    }
}

/// The message reporting that the file at `path` of the given kind is
/// missing.
fn missing_message(prefix: &str, path: &str) -> (r: String)
    ensures
        r@ == prefix@ + path@,
{
    let mut m = prefix.to_owned();
    m.append(path);
    m
}

/// The problems found with the configured files: a route file or a sound
/// file that is set (non-empty path) but does not exist is reported, in that
/// order.
pub fn validation_errors(csv_path: &str, csv_exists: bool, sound_file: &str, sound_exists: bool) -> (r: Vec<String>)
    ensures
        r@.len() == (if csv_path@.len() > 0 && !csv_exists { 1int } else { 0 }) + (if sound_file@.len() > 0
            && !sound_exists { 1int } else { 0 }),
        csv_path@.len() > 0 && !csv_exists ==> r@[0]@ == "CSV-Datei nicht gefunden: "@ + csv_path@,
        sound_file@.len() > 0 && !sound_exists ==> r@.last()@ == "Sound-Datei nicht gefunden: "@ + sound_file@,
{
    let mut errors: Vec<String> = Vec::new();
    if !csv_path.is_empty() && !csv_exists {
        errors.push(missing_message("CSV-Datei nicht gefunden: ", csv_path));
    }
    if !sound_file.is_empty() && !sound_exists {
        errors.push(missing_message("Sound-Datei nicht gefunden: ", sound_file));
    }
    errors
}

} // verus!
