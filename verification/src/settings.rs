//! Game settings: the plain values read from and written to the two
//! settings files.  Reading and writing the files themselves is I/O and is
//! done by the surrounding application, which hands the parsed values in
//! through [`GameSettings::from_parts`].

use vstd::prelude::*;

verus! {

use vstd::string::StringExecFns;
use crate::window_setting::{window_title, WindowSetting};

/// A type that can be restored from one of the settings files.  The
/// surrounding application implements this for its file-facing copies of
/// the settings types; nothing in this library performs the read.
pub trait FromGameSettingsFile {
    fn from_file(path: &str) -> Self where Self: Sized;
}

pub struct GameSettings {
    pub has_changed: bool,
    pub engine_settings: GameEngineSettings,
    pub player_settings: GamePlayerSettings,
}

pub struct GameEngineSettings {
    pub window_title: String,
    pub font_texture_width: u32,
}

#[derive(Clone, Copy, Debug, PartialEq, Eq, Structural)]
pub struct GamePlayerSettings {
    pub window_setting: WindowSetting,
}

impl GameSettings {
    /// Fresh settings, used when no settings files exist yet; they are
    /// marked changed so that they are saved on exit.
    pub fn new() -> (r: Self)
        ensures
            r.has_changed,
            r.engine_settings.window_title@ == "My Game"@,
            r.engine_settings.font_texture_width == 4096,
            r.player_settings.window_setting == WindowSetting(800u32, 600u32),
    {
        GameSettings {
            has_changed: true,
            engine_settings: GameEngineSettings::new(),
            player_settings: GamePlayerSettings::new(),
        }
    }

    /// Settings restored from the settings files; they are not marked
    /// changed, so saving them again can be skipped.
    pub fn from_parts(engine_settings: GameEngineSettings, player_settings: GamePlayerSettings) -> (r: Self)
        ensures
            !r.has_changed,
            r.engine_settings == engine_settings,
            r.player_settings == player_settings,
    {
        GameSettings { has_changed: false, engine_settings, player_settings }
    }

    pub fn get_window_width(&self) -> (r: u32)
        ensures
            r == self.player_settings.window_setting.0,
    {
        self.player_settings.window_setting.0
    }

    pub fn get_window_height(&self) -> (r: u32)
        ensures
            r == self.player_settings.window_setting.1,
    {
        self.player_settings.window_setting.1
    }

    pub fn get_window_title(&self) -> (r: String)
        ensures
            r@ == self.engine_settings.window_title@,
    {
        self.engine_settings.window_title.clone()
    }

    pub fn get_font_texture_width(&self) -> (r: u32)
        ensures
            r == self.engine_settings.font_texture_width,
    {
        self.engine_settings.font_texture_width
    }
}

impl GamePlayerSettings {
    pub fn new() -> (r: Self)
        ensures
            r.window_setting == WindowSetting(800u32, 600u32),
    {
        GamePlayerSettings { window_setting: WindowSetting(800, 600) }
    }
}

impl Default for GamePlayerSettings {
    fn default() -> (r: Self)
        ensures
            r.window_setting == WindowSetting(1920u32, 1080u32),
    {
        GamePlayerSettings { window_setting: WindowSetting::default() }
    }
}

impl GameEngineSettings {
    pub fn new() -> (r: Self)
        ensures
            r.window_title@ == "My Game"@,
            r.font_texture_width == 4096,
    {
        GameEngineSettings { window_title: String::from_str("My Game"), font_texture_width: 4096 }
    }
}

impl Default for GameEngineSettings {
    fn default() -> (r: Self)
        ensures
            r.window_title@ == "Game"@,
            r.font_texture_width == 4096,
    {
        GameEngineSettings { window_title: window_title(), font_texture_width: 4096 }
    }
}

} // verus!
