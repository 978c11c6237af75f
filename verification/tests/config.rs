use poneglyph::app::{CursorStyle, ThemeSwatchStyle};
use poneglyph::config::{config_path_for_load, config_path_for_save, parse_config, AppConfig, ConfigEnv};

#[test]
fn parses_ui_preferences() {
    let cfg = parse_config(
        r##"
            [ui]
            theme = "tokyo-night"
            cursorStyle = "underline"
            boxedChrome = false
            themeSwatches = "square"
            themeSwatchSpacing = 0
            "##,
    );
    assert_eq!(cfg.theme.as_deref(), Some("tokyo-night"));
    assert_eq!(cfg.cursor_style, Some(CursorStyle::Underline));
    assert_eq!(cfg.boxed_chrome, Some(false));
    assert_eq!(cfg.theme_swatch_style, Some(ThemeSwatchStyle::Square));
    assert_eq!(cfg.theme_swatch_spacing, Some(0));
}

#[test]
fn writes_stable_toml() {
    let cfg = AppConfig {
        theme: Some("slate".into()),
        cursor_style: Some(CursorStyle::Bar),
        boxed_chrome: Some(true),
        theme_swatch_style: Some(ThemeSwatchStyle::Circle),
        theme_swatch_spacing: Some(2),
        allow_remote_images: Some(true),
    };
    let toml = cfg.to_toml();
    assert!(toml.contains("theme = \"slate\""));
    assert!(toml.contains("cursorStyle = \"bar\""));
    assert!(toml.contains("boxedChrome = true"));
    assert!(toml.contains("themeSwatches = \"circle\""));
    assert!(toml.contains("themeSwatchSpacing = 2"));
    assert!(toml.contains("allowRemoteImages = true"));
}

#[test]
fn written_preferences_read_back() {
    let cfg = AppConfig {
        theme: Some("tokyo-night".into()),
        cursor_style: Some(CursorStyle::Underline),
        boxed_chrome: Some(false),
        theme_swatch_style: Some(ThemeSwatchStyle::Off),
        theme_swatch_spacing: Some(12),
        allow_remote_images: Some(true),
    };
    let back = parse_config(&cfg.to_toml());
    assert_eq!(back.theme.as_deref(), Some("tokyo-night"));
    assert_eq!(back.cursor_style, Some(CursorStyle::Underline));
    assert_eq!(back.boxed_chrome, Some(false));
    assert_eq!(back.theme_swatch_style, Some(ThemeSwatchStyle::Off));
    assert_eq!(back.theme_swatch_spacing, Some(8));
    assert_eq!(back.allow_remote_images, Some(true));
}

#[test]
fn unset_preferences_read_back_unset() {
    let cfg = AppConfig {
        theme: None,
        cursor_style: None,
        boxed_chrome: None,
        theme_swatch_style: None,
        theme_swatch_spacing: None,
        allow_remote_images: None,
    };
    assert_eq!(parse_config(&cfg.to_toml()), cfg);
}

fn bare_env() -> ConfigEnv {
    ConfigEnv {
        poneglyph_config: None,
        legacy_config: None,
        cwd: None,
        local_exists: false,
        legacy_exists: false,
        xdg_config_home: None,
        home: None,
    }
}

#[test]
fn config_path_prefers_the_variables() {
    let env = ConfigEnv {
        poneglyph_config: Some("/tmp/p.toml".into()),
        legacy_config: Some("/tmp/l.toml".into()),
        cwd: Some("/w".into()),
        local_exists: true,
        ..bare_env()
    };
    assert_eq!(config_path_for_save(&env), "/tmp/p.toml");
    assert_eq!(config_path_for_load(&env, false), Some("/tmp/p.toml".into()));
    let env = ConfigEnv { poneglyph_config: None, ..env };
    assert_eq!(config_path_for_save(&env), "/tmp/l.toml");
}

#[test]
fn config_path_then_looks_in_the_working_directory() {
    let env = ConfigEnv { cwd: Some("/w".into()), local_exists: true, legacy_exists: true, ..bare_env() };
    assert_eq!(config_path_for_load(&env, false), Some("/w/.poneglyph.toml".into()));
    let env = ConfigEnv { local_exists: false, ..env };
    assert_eq!(config_path_for_save(&env), "/w/.md-editor.toml");
}

#[test]
fn config_path_falls_back_to_the_user_file() {
    let env = ConfigEnv { home: Some("/home/u".into()), cwd: Some("/w".into()), ..bare_env() };
    assert_eq!(config_path_for_save(&env), "/home/u/.config/poneglyph/config.toml");
    assert_eq!(config_path_for_load(&env, false), None);
    assert_eq!(
        config_path_for_load(&env, true),
        Some("/home/u/.config/poneglyph/config.toml".into())
    );
    let env = ConfigEnv { xdg_config_home: Some("/x".into()), ..env };
    assert_eq!(config_path_for_save(&env), "/x/poneglyph/config.toml");
    assert_eq!(config_path_for_save(&bare_env()), "./poneglyph/config.toml");
}
