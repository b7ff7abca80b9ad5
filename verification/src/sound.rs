//! Which feedback sound to play.

use vstd::prelude::*;

verus! {

/// The embedded sound of a scan kind.
#[derive(Debug, Clone, Copy, PartialEq, Eq, Structural)]
pub enum SoundKind {
    Fss,
    Dss,
}

/// A sound to play: the scan kind's embedded sound, or the user's own file
/// where one is set.
pub struct SoundRequest {
    pub kind: SoundKind,
    pub custom_path: Option<String>,
}

/// The user's own sound file: a configured path, or none when the setting is
/// empty.
pub fn custom_sound_path(path: &str) -> (r: Option<String>)
    ensures
        path@.len() == 0 <==> r is None,
        r matches Some(p) ==> p@ == path@,
{
    if path.is_empty() {
        None
    } else {
        Some(path.to_owned())
    }
}

/// The sound that confirms a newly recorded scan (`is_dss`: a DSS mapping,
/// otherwise an FSS scan), or none when sounds are switched off.
pub fn feedback_sound(sound_enabled: bool, is_dss: bool, fss_path: &str, dss_path: &str) -> (r: Option<
    SoundRequest,
>)
    ensures
        sound_enabled <==> r is Some,
        r matches Some(req) ==> {
            &&& req.kind == (if is_dss { SoundKind::Dss } else { SoundKind::Fss })
            &&& req.custom_path is None <==> (if is_dss { dss_path@ } else { fss_path@ }).len() == 0
            &&& req.custom_path matches Some(p) ==> p@ == (if is_dss { dss_path@ } else { fss_path@ })
        },
{
    if !sound_enabled {
        return None;
    }
    if is_dss {
        Some(SoundRequest { kind: SoundKind::Dss, custom_path: custom_sound_path(dss_path) })
    } else {
        Some(SoundRequest { kind: SoundKind::Fss, custom_path: custom_sound_path(fss_path) })
    }
}

} // verus!
