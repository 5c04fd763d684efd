//! What a player's settings hold between sessions.

use vstd::prelude::*;

verus! {

/// Bit of the sound mask that stands for sound effects.
pub const SOUNDS_BIT: u32 = 1;

/// Bit of the sound mask that stands for music.
pub const MUSIC_BIT: u32 = 2;

/// The settings that outlive a session.
#[derive(Debug, Clone, Copy, PartialEq, Eq, Structural)]
pub struct StoredData {
    pub passed_tutorial: bool,
    pub sounds_enabled: bool,
    pub music_enabled: bool,
}

impl Default for StoredData {
    /// A new player has not passed the tutorial and hears everything.
    fn default() -> (data: Self)
        ensures
            data == (StoredData {
                passed_tutorial: false,
                sounds_enabled: true,
                music_enabled: true,
            }),
    {
        Self { passed_tutorial: false, sounds_enabled: true, music_enabled: true }
    }
}

impl StoredData {
    /// The mask of what is heard.
    pub open spec fn sound_mask(self) -> u32 {
        ((if self.sounds_enabled {
            SOUNDS_BIT as int
        } else {
            0
        }) + (if self.music_enabled {
            MUSIC_BIT as int
        } else {
            0
        })) as u32
    }

    /// The mask of what is heard: the first bit for sound effects, the
    /// second for music.
    pub fn get_enabled_sounds(&self) -> (mask: u32)
        ensures
            mask == self.sound_mask(),
    {
        let sounds: u32 = if self.sounds_enabled {
            SOUNDS_BIT
        } else {
            0
        };
        let music: u32 = if self.music_enabled {
            MUSIC_BIT
        } else {
            0
        };
        sounds + music
    }
}

} // verus!
