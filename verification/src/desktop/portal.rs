//! What the desktop portal says of the appearance that is preferred.
use crate::text::same_text;
use vstd::prelude::*;

verus! {

/// The namespace of the settings that matter here.
pub const APPEARANCE_NS: &'static str = "org.freedesktop.appearance";

/// The setting for light and dark.
pub const COLOR_SCHEME_KEY: &'static str = "color-scheme";

/// The setting for the accent colour.
pub const ACCENT_COLOR_KEY: &'static str = "accent-color";

/// The appearance that is preferred.
#[derive(Debug, Clone, Copy, PartialEq, Eq, Structural)]
pub enum ColorScheme {
    NoPreference,
    Dark,
    Light,
}

impl Default for ColorScheme {
    fn default() -> (r: Self)
        ensures
            r == ColorScheme::NoPreference,
    {
        ColorScheme::NoPreference
    }
}

impl ColorScheme {
    /// The appearance that a number of the portal stands for; no preference
    /// where the number is not known.
    pub fn from_portal_u32(v: u32) -> (r: ColorScheme)
        ensures
            r == (if v == 1 {
                ColorScheme::Dark
            } else if v == 2 {
                ColorScheme::Light
            } else {
                ColorScheme::NoPreference
            }),
    {
        match v {
            1 => ColorScheme::Dark,
            2 => ColorScheme::Light,
            _ => ColorScheme::NoPreference,
        }
    }

    /// The appearance that a reading of the portal stands for; no preference
    /// where the reading failed.
    pub fn of_reading(v: Option<u32>) -> (r: ColorScheme)
        ensures
            r == (match v {
                Some(1) => ColorScheme::Dark,
                Some(2) => ColorScheme::Light,
                _ => ColorScheme::NoPreference,
            }),
    {
        match v {
            Some(v) => ColorScheme::from_portal_u32(v),
            None => ColorScheme::default(),
        }
    }
}

/// Whether a change of a setting calls for reading the appearance again.
pub fn is_appearance(namespace: &str) -> (r: bool)
    ensures
        r == (namespace@ == "org.freedesktop.appearance"@),
{
    same_text(namespace, APPEARANCE_NS)
}

/// The names of the settings of the portal.
pub proof fn law_setting_names()
    ensures
        APPEARANCE_NS@ == "org.freedesktop.appearance"@,
        COLOR_SCHEME_KEY@ == "color-scheme"@,
        ACCENT_COLOR_KEY@ == "accent-color"@,
{
}

} // verus!
