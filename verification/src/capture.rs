//! The two NAM capture slots, the events the engine reports to the user
//! interface, what follows a background load, and when a freshly loaded
//! capture's output gain is normalized.

use vstd::prelude::*;

verus! {

/// Which capture slot a NAM profile is loaded into.
#[derive(Clone, Copy, PartialEq, Eq, Debug, Structural)]
pub enum CaptureKind {
    Pedal,
    Amp,
}

/// The label of a slot in messages shown to the user.
pub open spec fn label_of(k: CaptureKind) -> Seq<char> {
    match k {
        CaptureKind::Pedal => seq!['P', 'e', 'd', 'a', 'l'],
        CaptureKind::Amp => seq!['A', 'm', 'p'],
    }
}

/// The log target of a slot.
pub open spec fn target_of(k: CaptureKind) -> Seq<char> {
    match k {
        CaptureKind::Pedal => seq!['p', 'e', 'd', 'a', 'l'],
        CaptureKind::Amp => seq!['a', 'm', 'p'],
    }
}

impl CaptureKind {
    /// `Pedal` or `Amp`, for messages.
    pub fn label(self) -> (s: &'static str)
        ensures
            s@ == label_of(self),
    {
        match self {
            CaptureKind::Pedal => {
                proof {
                    reveal_strlit("Pedal");
                    assert("Pedal"@ =~= label_of(CaptureKind::Pedal));
                }
                "Pedal"
            },
            CaptureKind::Amp => {
                proof {
                    reveal_strlit("Amp");
                    assert("Amp"@ =~= label_of(CaptureKind::Amp));
                }
                "Amp"
            },
        }
    }

    /// `pedal` or `amp`, for the log.
    pub fn target(self) -> (s: &'static str)
        ensures
            s@ == target_of(self),
    {
        match self {
            CaptureKind::Pedal => {
                proof {
                    reveal_strlit("pedal");
                    assert("pedal"@ =~= target_of(CaptureKind::Pedal));
                }
                "pedal"
            },
            CaptureKind::Amp => {
                proof {
                    reveal_strlit("amp");
                    assert("amp"@ =~= target_of(CaptureKind::Amp));
                }
                "amp"
            },
        }
    }
}

/// What the audio engine reports to the user interface.
pub enum EngineEvent {
    /// Something went wrong; show this message.
    Warning(String),
    /// A capture finished loading into this slot and its loudness is known.
    ProfileLoaded(CaptureKind),
}

/// Decides whether a capture that just loaded gets its output gain normalized.
/// `skip_pending` is set when the capture was loaded by restoring saved
/// settings or a preset, whose output gain must be kept; it is consumed here.
pub fn should_normalize(skip_pending: &mut bool, normalize_enabled: bool) -> (apply: bool)
    ensures
        *final(skip_pending) == false,
        apply == (!*old(skip_pending) && normalize_enabled),
{
    let skip = *skip_pending;
    *skip_pending = false;
    !skip && normalize_enabled
}

/// What follows a background load of a capture or cabinet file.
#[derive(Clone, Copy, PartialEq, Eq, Debug, Structural)]
pub enum LoadFollowUp {
    /// No file was asked for: the slot is emptied.
    Cleared,
    /// The file loaded: the slot takes it.
    Installed,
    /// The file did not load: the slot is emptied and the user is warned.
    Failed,
}

/// The follow-up of a background load, given whether a file was asked for
/// and, if so, whether it loaded.
pub fn load_follow_up(requested: bool, loaded: bool) -> (f: LoadFollowUp)
    ensures
        !requested ==> f == LoadFollowUp::Cleared,
        requested && loaded ==> f == LoadFollowUp::Installed,
        requested && !loaded ==> f == LoadFollowUp::Failed,
{
    if !requested {
        LoadFollowUp::Cleared
    } else if loaded {
        LoadFollowUp::Installed
    } else {
        LoadFollowUp::Failed
    }
}

impl LoadFollowUp {
    /// Whether the slot's previous contents and loudness are dropped.
    pub fn empties_slot(self) -> (b: bool)
        ensures
            b == (self != LoadFollowUp::Installed),
    {
        !matches!(self, LoadFollowUp::Installed)
    }

    /// Whether the user is shown a warning.
    pub fn warns(self) -> (b: bool)
        ensures
            b == (self == LoadFollowUp::Failed),
    {
        matches!(self, LoadFollowUp::Failed)
    }
}

} // verus!
