//! The settings of the application.

use vstd::prelude::*;
use vstd::string::*;

verus! {

/// The name of the file that keeps the settings.
pub const CONFIG_FILE_NAME: &'static str = "config.json";

/// The colour theme of the application.
#[derive(Clone, Copy, Debug, PartialEq, Eq, Structural)]
pub enum SettingsTheme {
    Light,
    Dark,
}

/// Whether the toolkit's default theme is its dark one. Calls
/// `iced::Theme::default`. Where the toolkit is built with its detection of
/// the system's theme, the default follows what the system prefers; where it
/// is built without, as the features named for this crate have it, the
/// default is the light theme and the answer is `false`. Nothing is claimed
/// of the answer, which depends on how the toolkit is built and then on the
/// machine.
#[verifier::external_body]
fn toolkit_prefers_dark() -> bool {
    iced::Theme::default() == iced::Theme::Dark
}

impl SettingsTheme {
    /// The themes that can be chosen, in the order in which they are offered.
    pub const ALL: [SettingsTheme; 2] = [SettingsTheme::Light, SettingsTheme::Dark];

    /// The theme that follows the system: dark where the system uses dark.
    pub fn from_system(system_use_dark: bool) -> (r: Self)
        ensures
            r == if system_use_dark {
                SettingsTheme::Dark
            } else {
                SettingsTheme::Light
            },
    {
        if system_use_dark {
            SettingsTheme::Dark
        } else {
            SettingsTheme::Light
        }
    }

    /// The name of the theme, as it is shown.
    pub fn label(&self) -> (r: String)
        ensures
            r@ == match self {
                SettingsTheme::Light => "Light"@,
                SettingsTheme::Dark => "Dark"@,
            },
    {
        match self {
            SettingsTheme::Light => "Light".to_owned(),
            SettingsTheme::Dark => "Dark".to_owned(),
        }
    }
}

impl Default for SettingsTheme {
    /// The theme that goes with the toolkit's default theme: dark where that
    /// is the dark one, light otherwise.
    fn default() -> (r: Self) {
        SettingsTheme::from_system(toolkit_prefers_dark())
    }
}

/// The settings that are kept between runs.
pub struct Settings {
    pub theme: SettingsTheme,
}

impl Default for Settings {
    /// The settings of a first run, with the default theme.
    fn default() -> (r: Self) {
        Settings { theme: SettingsTheme::default() }
    }
}

/// A change of the settings that the user asked for.
#[derive(Clone, Debug)]
pub enum MessageSettings {
    ThemeSelected(SettingsTheme),
}

impl Settings {
    /// Applies a change: the theme chosen becomes the theme.
    pub fn update(&mut self, message: MessageSettings)
        ensures
            message matches MessageSettings::ThemeSelected(theme) && final(self).theme == theme,
    {
        match message {
            MessageSettings::ThemeSelected(settings_theme) => {
                self.theme = settings_theme;
            },
        }
    }
}

} // verus!
