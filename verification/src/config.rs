//! The persisted player settings: whether sound is muted and whether
//! playback loops.

use vstd::prelude::*;

verus! {

/// Name of the settings file in the user's configuration directory.
pub const CONFIG_FILE_NAME: &'static str = "rumpel.conf";

/// Key-file group that holds the settings.
pub const STATE_GROUP: &'static str = "state";

/// Key of the mute setting.
pub const MUTE_KEY: &'static str = "mute";

/// Key of the loop setting.
pub const LOOP_KEY: &'static str = "loop";

/// The settings `(mute, loop)` given what the settings file holds for each
/// key: a missing or unreadable entry falls back to not muted and looping.
pub open spec fn spec_load_config(stored_mute: Option<bool>, stored_loop: Option<bool>) -> (
    bool,
    bool,
) {
    (
        match stored_mute {
            Some(m) => m,
            None => false,
        },
        match stored_loop {
            Some(l) => l,
            None => true,
        },
    )
}

/// The settings `(mute, loop)` from the values read from the settings file
/// (`None` where a key is missing or is not a boolean).
pub fn load_config(stored_mute: Option<bool>, stored_loop: Option<bool>) -> (settings: (bool, bool))
    ensures
        settings == spec_load_config(stored_mute, stored_loop),
{
    let mute = match stored_mute {
        Some(m) => m,
        None => false,
    };
    let looping = match stored_loop {
        Some(l) => l,
        None => true,
    };
    (mute, looping)
}

/// Settings that were saved are loaded back unchanged.
pub proof fn law_config_round_trip(mute: bool, looping: bool)
    ensures
        spec_load_config(Some(mute), Some(looping)) == (mute, looping),
{
}

/// Without a settings file the player starts unmuted and looping.
pub proof fn law_config_defaults()
    ensures
        spec_load_config(None, None) == (false, true),
{
}

} // verus!
