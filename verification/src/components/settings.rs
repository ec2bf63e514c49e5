//! The sections of the settings panel.

use vstd::prelude::*;

verus! {

/// The section of the settings panel that has the focus.
#[derive(Clone, Copy, Debug, PartialEq, Eq, Structural)]
pub enum SettingsSection {
    Theme,
    Performance,
}

impl SettingsSection {
    /// The other section.
    pub fn toggled(self) -> (r: SettingsSection)
        ensures
            self == SettingsSection::Theme ==> r == SettingsSection::Performance,
            self == SettingsSection::Performance ==> r == SettingsSection::Theme,
    {
        match self {
            SettingsSection::Theme => SettingsSection::Performance,
            SettingsSection::Performance => SettingsSection::Theme,
        }
    }
}

} // verus!
