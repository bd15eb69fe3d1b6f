use glyph_bands::cache::cache_file_name;
use glyph_bands::settings::{GameEngineSettings, GamePlayerSettings, GameSettings};
use glyph_bands::utils::{max_3number, min_3number};
use glyph_bands::window_setting::{window_title, WindowSetting};

#[test]
fn fresh_settings_use_the_shipped_defaults() {
    let settings = GameSettings::new();
    assert!(settings.has_changed);
    assert_eq!(settings.get_window_width(), 800);
    assert_eq!(settings.get_window_height(), 600);
    assert_eq!(settings.get_window_title().as_str(), "My Game");
    assert_eq!(settings.get_font_texture_width(), 4096);
}

#[test]
fn loaded_settings_are_not_marked_changed() {
    let engine = GameEngineSettings { window_title: String::from("loaded"), font_texture_width: 512 };
    let player = GamePlayerSettings { window_setting: WindowSetting(1024, 768) };
    let settings = GameSettings::from_parts(engine, player);
    assert!(!settings.has_changed);
    assert_eq!(settings.get_window_width(), 1024);
    assert_eq!(settings.get_window_height(), 768);
    assert_eq!(settings.get_window_title().as_str(), "loaded");
    assert_eq!(settings.get_font_texture_width(), 512);
}

#[test]
fn default_window_setting_and_title() {
    assert_eq!(WindowSetting::default(), WindowSetting(1920, 1080));
    assert_eq!(window_title().as_str(), "Game");
    let player = GamePlayerSettings::default();
    assert_eq!(player.window_setting, WindowSetting(1920, 1080));
    let engine = GameEngineSettings::default();
    assert_eq!(engine.window_title.as_str(), "Game");
    assert_eq!(engine.font_texture_width, 4096);
}

#[test]
fn cache_file_name_lower_cases_the_font_name() {
    assert_eq!(cache_file_name("AbC.TtF").as_str(), "abc.ttf.bin");
    assert_eq!(cache_file_name("inconsolata-regular.ttf").as_str(), "inconsolata-regular.ttf.bin");
    assert_eq!(cache_file_name("").as_str(), ".bin");
}

#[test]
fn three_way_extrema() {
    assert_eq!(max_3number(1, 5, 3), 5);
    assert_eq!(max_3number(-7, -5, -9), -5);
    assert_eq!(max_3number(2, 2, 2), 2);
    assert_eq!(min_3number(1, 5, 3), 1);
    assert_eq!(min_3number(-7, -5, -9), -9);
    assert_eq!(min_3number(4, 2, 2), 2);
}
