use teral::config::{config_path, parse_sort_key, sort_key_name, Config, RawConfig, ThemeMode, ViewPreference};
use teral::files::scan::SortKey;
use teral::theme::{ThemeColors, ThemeLayout};

fn section<'a>(table: &'a toml::Table, name: &str) -> Option<&'a toml::Table> {
    table.get(name).and_then(|value| value.as_table())
}

fn text(table: Option<&toml::Table>, key: &str) -> Option<String> {
    table.and_then(|t| t.get(key)).and_then(|v| v.as_str()).map(|s| s.to_owned())
}

fn flag(table: Option<&toml::Table>, key: &str) -> Option<bool> {
    table.and_then(|t| t.get(key)).and_then(|v| v.as_bool())
}

fn number(table: Option<&toml::Table>, key: &str) -> Option<i32> {
    table.and_then(|t| t.get(key)).and_then(|v| v.as_integer()).map(|n| n as i32)
}

/// Reads a configuration document the way the application does.
fn read(document: &str) -> RawConfig {
    let table: toml::Table = toml::from_str(document).expect("valid TOML");
    let appearance = section(&table, "appearance");
    let files = section(&table, "files");
    let commands = section(&table, "commands");
    let colors = section(&table, "colors");
    let layout = section(&table, "layout");
    RawConfig {
        mode: text(appearance, "mode"),
        accent: text(appearance, "accent"),
        colors: ThemeColors {
            background: text(colors, "background"),
            surface: text(colors, "surface"),
            surface_alt: text(colors, "surface_alt"),
            elevated: text(colors, "elevated"),
            border: text(colors, "border"),
            text: text(colors, "text"),
            text_bright: text(colors, "text_bright"),
            text_muted: text(colors, "text_muted"),
            accent: text(colors, "accent"),
            selection: text(colors, "selection"),
            danger: text(colors, "danger"),
            warning: text(colors, "warning"),
            success: text(colors, "success"),
        },
        layout: ThemeLayout {
            window_width: number(layout, "window_width"),
            window_height: number(layout, "window_height"),
            sidebar_width: number(layout, "sidebar_width"),
            details_width: number(layout, "details_width"),
            spacing: number(layout, "spacing"),
            radius: number(layout, "radius"),
            row_height: number(layout, "row_height"),
            grid_icon_size: number(layout, "grid_icon_size"),
        },
        show_hidden: flag(files, "show_hidden"),
        folders_first: flag(files, "folders_first"),
        sort: text(files, "sort"),
        descending: flag(files, "descending"),
        view: text(files, "view"),
        details_visible: flag(files, "details_visible"),
        shell: text(commands, "shell"),
        terminal: text(commands, "terminal"),
    }
}

#[test]
fn defaults_round_trip_through_toml() {
    let config = Config::default();
    let restored = Config::from_raw(read(&config.to_toml()));

    assert_eq!(restored.mode, config.mode);
    assert_eq!(restored.show_hidden, config.show_hidden);
    assert_eq!(restored.folders_first, config.folders_first);
    assert_eq!(restored.view, config.view);
}

#[test]
fn every_setting_round_trips() {
    let config = Config {
        mode: ThemeMode::System,
        accent: Some("#123456".to_owned()),
        show_hidden: true,
        folders_first: false,
        sort: SortKey::Modified,
        descending: true,
        view: ViewPreference::List,
        details_visible: false,
        shell: "/bin/dash".to_owned(),
        terminal: "kitty".to_owned(),
        ..Config::default()
    };

    let restored = Config::from_raw(read(&config.to_toml()));

    assert_eq!(restored.mode, ThemeMode::System);
    assert_eq!(restored.accent.as_deref(), Some("#123456"));
    assert!(restored.show_hidden);
    assert!(!restored.folders_first);
    assert_eq!(restored.sort, SortKey::Modified);
    assert!(restored.descending);
    assert_eq!(restored.view, ViewPreference::List);
    assert!(!restored.details_visible);
    assert_eq!(restored.shell, "/bin/dash");
    assert_eq!(restored.terminal, "kitty");
}

#[test]
fn an_unreadable_accent_is_discarded_rather_than_applied() {
    let raw = read("[appearance]\naccent = \"purple\"\n");
    assert!(Config::from_raw(raw).accent.is_none());
}

#[test]
fn the_old_omarchy_mode_now_means_following_the_system() {
    let raw = read("[appearance]\nmode = \"omarchy\"\n");
    assert_eq!(Config::from_raw(raw).mode, ThemeMode::System);
}

#[test]
fn an_unknown_mode_falls_back_to_the_default() {
    let raw = read("[appearance]\nmode = \"nonsense\"\n");
    assert_eq!(Config::from_raw(raw).mode, ThemeMode::Teral);
}

#[test]
fn quotes_and_backslashes_in_commands_survive_a_round_trip() {
    let config = Config {
        shell: "/opt/my \"shell\"".to_owned(),
        terminal: "C:\\odd\\path".to_owned(),
        ..Config::default()
    };
    let restored = Config::from_raw(read(&config.to_toml()));
    assert_eq!(restored.shell, "/opt/my \"shell\"");
    assert_eq!(restored.terminal, "C:\\odd\\path");
}

#[test]
fn colour_overrides_and_layout_are_written_and_read_back() {
    let mut config = Config::default();
    config.colors.background = Some("#101010".to_owned());
    config.colors.accent = Some("nope".to_owned());
    config.layout.sidebar_width = Some(4000);
    config.layout.spacing = Some(6);
    let restored = Config::from_raw(read(&config.to_toml()));
    assert_eq!(restored.colors.background.as_deref(), Some("#101010"));
    assert!(restored.colors.accent.is_none());
    assert_eq!(restored.layout.sidebar_width, Some(420));
    assert_eq!(restored.layout.spacing, Some(6));
}

#[test]
fn mode_and_view_keys_parse_back() {
    for mode in ThemeMode::all() {
        assert_eq!(ThemeMode::parse(mode.key()), Some(mode));
    }
    assert_eq!(ThemeMode::parse("light"), None);
    assert_eq!(ViewPreference::parse(ViewPreference::Grid.key()), Some(ViewPreference::Grid));
    assert_eq!(ViewPreference::parse("columns"), None);
    for key in [SortKey::Name, SortKey::Size, SortKey::Kind, SortKey::Modified] {
        assert_eq!(parse_sort_key(sort_key_name(key)), Some(key));
    }
    assert_eq!(parse_sort_key("colour"), None);
}

#[test]
fn the_configuration_lives_under_the_config_home() {
    assert_eq!(config_path(b"/home/zub/.config"), b"/home/zub/.config/teral/teral.toml".to_vec());
}
