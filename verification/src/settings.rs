use vstd::prelude::*;

verus! {

/// The `jump` section of the user's settings file, as it was read.
#[derive(Clone, Copy, Debug, PartialEq, Eq)]
pub struct JumpSettingsContent {
    /// Jump by itself when a search has exactly one match.
    pub autojump: Option<bool>,
}

/// The part of the whole settings file that this crate reads.
#[derive(Clone, Copy, Debug, PartialEq, Eq)]
pub struct SettingsContent {
    /// The `jump` section, when the file has one.
    pub jump: Option<JumpSettingsContent>,
}

/// The settings that the jump bar works with.
#[derive(Clone, Copy, Debug, PartialEq, Eq)]
pub struct JumpSettings {
    /// Jump by itself when a search has exactly one match.
    pub autojump: bool,
}

/// `autojump` as the settings file gives it, `false` where it is absent.
pub open spec fn spec_autojump(content: SettingsContent) -> bool {
    match content.jump {
        Some(jump) => match jump.autojump {
            Some(value) => value,
            None => false,
        },
        None => false,
    }
}

impl JumpSettings {
    /// Reads the jump settings out of the settings file; `autojump` is off
    /// unless the file turns it on.
    pub fn from_settings(content: &SettingsContent) -> (settings: JumpSettings)
        ensures
            settings.autojump == spec_autojump(*content),
    {
        let autojump = match content.jump {
            Some(jump) => match jump.autojump {
                Some(value) => value,
                None => false,
            },
            None => false,
        };
        JumpSettings { autojump }
    }
}

} // verus!
