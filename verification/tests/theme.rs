use teral::theme::{step_icon_size, MAX_ICON_SIZE, MIN_ICON_SIZE};
use teral::config::{Config, ThemeMode};
use teral::style::{color_definitions, metrics, stylesheet};
use teral::theme::{
    base_dir, check_theme_version, derive_omarchy_theme, omarchy_theme_links, prefers_dark, resolve,
    system_prefers_dark, valid_color, BaseDir, ColorRole, DesktopLayer, OmarchyColors, ThemeColors,
    ThemeConfig, ThemeLayout, THEME_FORMAT_VERSION,
};

fn no_desktop() -> DesktopLayer {
    DesktopLayer::System { palette: None, accent: None }
}

fn omarchy() -> OmarchyColors {
    OmarchyColors {
        background: Some("#101010".to_owned()),
        dark_background: None,
        darker_background: Some("#080808".to_owned()),
        lighter_background: Some("#202020".to_owned()),
        foreground: Some("#eeeeee".to_owned()),
        dark_foreground: Some("#999999".to_owned()),
        bright_foreground: None,
        accent: Some("#ff8800".to_owned()),
        selection: None,
        muted: None,
        red: Some("#ff0000".to_owned()),
        yellow: None,
        green: None,
    }
}

#[test]
fn user_overrides_beat_the_built_in_palette() {
    let config = Config { accent: Some("#123456".to_owned()), ..Config::default() };
    let theme = resolve(&config, ThemeConfig::default(), true, no_desktop());
    assert_eq!(theme.color(ColorRole::Accent), "#123456");
}

#[test]
fn invalid_colors_fall_back_instead_of_breaking() {
    let mut theme = ThemeConfig {
        colors: ThemeColors { accent: Some("not-a-colour".to_owned()), ..ThemeColors::default() },
        ..ThemeConfig::default()
    };
    theme.sanitize();
    assert_eq!(theme.color(ColorRole::Accent), ColorRole::Accent.fallback());
}

#[test]
fn layout_values_are_clamped() {
    let config = Config {
        layout: ThemeLayout { sidebar_width: Some(4000), ..ThemeLayout::default() },
        ..Config::default()
    };
    assert_eq!(resolve(&config, ThemeConfig::default(), true, no_desktop()).sidebar_width(), 420);
}

#[test]
fn layout_entries_only_list_values_that_are_set() {
    let layout = ThemeLayout { grid_icon_size: Some(72), ..ThemeLayout::default() };
    assert_eq!(layout.entries(), vec![("grid_icon_size", 72)]);
}

#[test]
fn every_color_role_resolves_to_a_colour() {
    let mut theme = ThemeConfig::default();
    theme.sanitize();
    for role in ColorRole::all() {
        assert!(valid_color(theme.color(role)), "{role:?} must be a colour");
    }
}

#[test]
fn colours_are_hash_and_six_or_eight_hex_digits() {
    assert!(valid_color("#a1B2c3"));
    assert!(valid_color("#a1b2c3d4"));
    assert!(!valid_color("a1b2c3"));
    assert!(!valid_color("#a1b2c"));
    assert!(!valid_color("#g1b2c3"));
}

#[test]
fn stylesheet_defines_every_color_role() {
    let theme = ThemeConfig::default();
    let css = stylesheet(&theme, "window { }\n");
    for role in ColorRole::all() {
        assert!(css.contains(&format!("@define-color {} ", role.css_name())), "missing {}", role.css_name());
    }
    assert!(css.contains("window { }"));
    assert!(color_definitions(&theme).starts_with("@define-color "));
    assert!(!metrics(&theme).is_empty());
}

#[test]
fn following_the_system_takes_the_desktop_accent_but_the_user_still_wins() {
    let mut config = Config { mode: ThemeMode::System, ..Config::default() };
    let desktop = DesktopLayer::System { palette: None, accent: Some("#00aa00".to_owned()) };
    let theme = resolve(&config, ThemeConfig::default(), false, desktop);
    assert_eq!(theme.color(ColorRole::Accent), "#00aa00");
    assert_eq!(theme.name.as_deref(), Some("System"));
    assert!(!theme.dark);

    config.accent = Some("#0000ff".to_owned());
    let desktop = DesktopLayer::System { palette: None, accent: Some("#00aa00".to_owned()) };
    assert_eq!(resolve(&config, ThemeConfig::default(), false, desktop).color(ColorRole::Accent), "#0000ff");

    let teral = Config { mode: ThemeMode::Teral, ..Config::default() };
    let desktop = DesktopLayer::System { palette: None, accent: Some("#00aa00".to_owned()) };
    assert_eq!(resolve(&teral, ThemeConfig::default(), true, desktop).color(ColorRole::Accent), ColorRole::Accent.fallback());
}

#[test]
fn an_omarchy_palette_maps_onto_teral_roles() {
    let theme = derive_omarchy_theme(&omarchy());
    assert_eq!(theme.version, Some(THEME_FORMAT_VERSION));
    assert_eq!(theme.name.as_deref(), Some("Omarchy Active Theme"));
    assert!(theme.dark);
    assert_eq!(theme.colors.surface.as_deref(), Some("#080808"));
    assert_eq!(theme.colors.elevated.as_deref(), Some("#202020"));
    assert_eq!(theme.colors.text_muted.as_deref(), Some("#999999"));
    assert_eq!(theme.colors.danger.as_deref(), Some("#ff0000"));

    let config = Config { mode: ThemeMode::System, ..Config::default() };
    let resolved = resolve(&config, ThemeConfig::default(), true, DesktopLayer::Omarchy(theme));
    assert_eq!(resolved.color(ColorRole::Accent), "#ff8800");
    assert_eq!(resolved.name.as_deref(), Some("Omarchy Active Theme"));
}

#[test]
fn the_desktop_decides_dark_or_light() {
    assert!(system_prefers_dark(Some(1), Some(false), None));
    assert!(!system_prefers_dark(Some(2), Some(true), None));
    assert!(system_prefers_dark(None, Some(false), Some("Adwaita-Dark")));
    assert!(!system_prefers_dark(None, Some(false), Some("Adwaita")));
    assert!(!system_prefers_dark(None, None, Some("Adwaita-dark")));
    assert!(prefers_dark(ThemeMode::Teral, Some(true), false));
    assert!(!prefers_dark(ThemeMode::System, Some(true), true));
    assert!(prefers_dark(ThemeMode::System, None, true));
}

#[test]
fn only_the_supported_theme_version_is_read() {
    let newer = ThemeConfig { version: Some(2), ..ThemeConfig::default() };
    assert_eq!(
        check_theme_version(newer).unwrap_err(),
        "unsupported theme version; Teral currently supports version = 1"
    );
    assert!(check_theme_version(ThemeConfig::default()).is_ok());
}

#[test]
fn base_directories_fall_back_to_home() {
    assert_eq!(base_dir(BaseDir::Config, Some(b"/x".to_vec()), Some(b"/home/z")), b"/x".to_vec());
    assert_eq!(base_dir(BaseDir::Data, None, Some(b"/home/z")), b"/home/z/.local/share".to_vec());
    assert_eq!(base_dir(BaseDir::State, None, None), b".local/state".to_vec());
    let links = omarchy_theme_links(None, b"/c", b"/s", b"/d");
    assert_eq!(links[0], b"/c/omarchy/current/theme".to_vec());
    assert_eq!(links.len(), 3);
    assert_eq!(omarchy_theme_links(Some(b"/o".to_vec()), b"/c", b"/s", b"/d"), vec![b"/o".to_vec()]);
}

#[test]
fn zooming_stays_inside_the_icon_sizes() {
    assert_eq!(step_icon_size(64, 16), 80);
    assert_eq!(step_icon_size(150, 16), MAX_ICON_SIZE);
    assert_eq!(step_icon_size(40, -16), MIN_ICON_SIZE);
    assert_eq!(step_icon_size(i32::MAX, i32::MAX), MAX_ICON_SIZE);
}
