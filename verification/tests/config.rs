use mdv::config::{
    parse_key, Config, KeyBinding, KeyCode, KeyModifiers, ResolvedKeybindings, ThemeState, ALT, CONTROL,
    SHIFT,
};
use mdv::config::{parse_hex_color, ColorError};
use mdv::keys::{help_key_label, status_key_label};
use mdv::themes::{Rgb, ThemeName};
use mdv::width::locale_is_cjk;

fn plain() -> KeyModifiers {
    KeyModifiers::empty()
}

#[test]
fn preserves_case_for_single_char_keys() {
    assert_eq!(parse_key("G"), KeyBinding::new(KeyCode::Char('G'), plain()));
    assert_eq!(parse_key("q"), KeyBinding::new(KeyCode::Char('q'), plain()));
}

#[test]
fn parses_control_bindings_without_matching_plain_key() {
    let binding = parse_key("ctrl-c");
    assert!(binding.matches(KeyCode::Char('c'), KeyModifiers { bits: CONTROL }));
    assert!(!binding.matches(KeyCode::Char('c'), plain()));
}

#[test]
fn resolves_keybindings_once() {
    let config = Config::default();
    let keymap = ResolvedKeybindings::from_config(&config);
    assert_eq!(keymap.quit, KeyBinding::new(KeyCode::Char('q'), plain()));
    assert_eq!(keymap.bottom, KeyBinding::new(KeyCode::Char('G'), plain()));
    assert_eq!(keymap.search, KeyBinding::new(KeyCode::Char('/'), plain()));
}

#[test]
fn shift_is_ignored_when_matching() {
    let binding = parse_key("G");
    assert!(binding.matches(KeyCode::Char('G'), KeyModifiers { bits: SHIFT }));
    assert!(binding.matches(KeyCode::Char('G'), plain()));
    assert!(!binding.matches(KeyCode::Char('G'), KeyModifiers { bits: ALT }));
}

#[test]
fn parses_named_keys_and_modifiers() {
    assert_eq!(parse_key("esc"), KeyBinding::new(KeyCode::Esc, plain()));
    assert_eq!(parse_key("Enter"), KeyBinding::new(KeyCode::Enter, plain()));
    assert_eq!(parse_key("alt-x"), KeyBinding::new(KeyCode::Char('x'), KeyModifiers { bits: ALT }));
    assert_eq!(
        parse_key("ctrl-alt-k"),
        KeyBinding::new(KeyCode::Char('k'), KeyModifiers { bits: CONTROL | ALT })
    );
    assert_eq!(parse_key("nosuchkey").code, KeyCode::Null);
}

#[test]
fn theme_names_from_the_readme_are_recognised() {
    assert_eq!(ThemeName::from_str("catppuccin-mocha"), Some(ThemeName::CatppuccinMocha));
    assert_eq!(ThemeName::from_str("nord"), Some(ThemeName::Nord));
    assert_eq!(ThemeName::from_str("gruvbox-dark"), Some(ThemeName::GruvboxDark));
    assert_eq!(ThemeName::from_str("Tokyo-Night"), Some(ThemeName::TokyoNight));
    assert_eq!(ThemeName::from_str("one-dark"), Some(ThemeName::OneDark));
    assert_eq!(ThemeName::from_str("solarized"), None);
}

#[test]
fn theme_state_goes_round_the_themes() {
    let mut themes = ThemeState::new();
    assert_eq!(themes.current_theme_index(), 0);
    assert_eq!(themes.current_theme_name(), "Catppuccin Mocha");
    themes.apply_theme_by_index(7);
    assert_eq!(themes.current_theme_index(), 2);
    assert_eq!(themes.current_theme_name(), "Gruvbox Dark");
}

#[test]
fn hex_colours_are_read() {
    assert_eq!(parse_hex_color("#ff8000"), Ok(Rgb { r: 255, g: 128, b: 0 }));
    assert_eq!(parse_hex_color("1e1E2e"), Ok(Rgb { r: 30, g: 30, b: 46 }));
    assert_eq!(parse_hex_color("##000001"), Ok(Rgb { r: 0, g: 0, b: 1 }));
    assert_eq!(parse_hex_color("+f0000"), Ok(Rgb { r: 15, g: 0, b: 0 }));
    assert_eq!(parse_hex_color("#fff"), Err(ColorError::WrongLength));
    assert_eq!(parse_hex_color("#gg0000"), Err(ColorError::NotHex));
    assert_eq!(parse_hex_color("éé12"), Err(ColorError::NotHex));
}

#[test]
fn key_labels_for_status_bar_and_help() {
    assert_eq!(status_key_label(parse_key("q")), "q");
    assert_eq!(status_key_label(parse_key("ctrl-c")), "C-c");
    assert_eq!(status_key_label(parse_key("alt-backspace")), "M-BS");
    assert_eq!(status_key_label(parse_key("pgdown")), "PgDn");
    assert_eq!(help_key_label(parse_key("ctrl-alt-up")), "C-A-↑");
    assert_eq!(help_key_label(parse_key("backspace")), "Bksp");
    assert_eq!(help_key_label(parse_key("pageup")), "?");
}

#[test]
fn locale_names_select_east_asian_widths() {
    assert!(locale_is_cjk("zh_CN.UTF-8"));
    assert!(locale_is_cjk("JA_JP"));
    assert!(locale_is_cjk("ko_KR.UTF-8"));
    assert!(!locale_is_cjk("en_US.UTF-8"));
    assert!(!locale_is_cjk(""));
}
