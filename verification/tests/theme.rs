use dsh_desktop::theme::theme_key;
use dsh_desktop::theme::{
    mix_hex, parse_hex, resolve_mode, resolve_ui_theme, to_hex, tokens_for, UiThemeSection,
};

#[test]
fn resolve_mode_resolves_system() {
    assert_eq!(resolve_mode("system", true), "dark");
    assert_eq!(resolve_mode("system", false), "light");
    assert_eq!(resolve_mode("light", true), "light");
    assert_eq!(resolve_mode("dark", false), "dark");
}

#[test]
fn missing_section_falls_back_to_deepseek_dark() {
    let section = UiThemeSection::default();
    let snapshot = resolve_ui_theme(&section, true);
    assert_eq!(snapshot.mode, "dark");
    assert_eq!(snapshot.tokens.scheme, "dark");
    assert_eq!(snapshot.tokens.bg, "#151517");
}

#[test]
fn parses_camel_case_section() {
    let section = UiThemeSection {
        preference: Some("light".into()),
        active_light_theme_id: Some("midnight".into()),
        active_dark_theme_id: Some("midnight".into()),
    };
    let snapshot = resolve_ui_theme(&section, true);
    assert_eq!(snapshot.tokens.bg, "#f3f6fb");
    assert_eq!(snapshot.preference, "light");
}

#[test]
fn mix_hex_interpolates() {
    assert_eq!(mix_hex("#000000", "#ffffff", 100), "#ffffff");
    assert_eq!(mix_hex("#000000", "#ffffff", 0), "#000000");
}

#[test]
fn mix_hex_rounds_like_the_float_formula() {
    // 0x15 + (0xf5 - 0x15) * 0.06 = 34.44 -> 34
    assert_eq!(mix_hex("#151517", "#f5f5f5", 6), "#222224");
    // 0 + 255 * 0.5 = 127.5 -> 128
    assert_eq!(mix_hex("#000000", "#ffffff", 50), "#808080");
    assert_eq!(mix_hex("#000000", "#ffffff", 200), "#ffffff");
}

#[test]
fn hex_channels_read_like_from_str_radix() {
    assert_eq!(parse_hex("#4176e6"), (0x41, 0x76, 0xe6));
    assert_eq!(parse_hex("##0a0B0c"), (10, 11, 12));
    assert_eq!(parse_hex("#zz"), (0, 0, 0));
    assert_eq!(parse_hex("#+f0102"), (15, 1, 2));
    assert_eq!(to_hex(1, 171, 255), "#01abff");
}

#[test]
fn light_tokens_of_default_family() {
    let tokens = tokens_for(&UiThemeSection::default(), "light", true);
    assert_eq!(tokens.bg, "#ffffff");
    assert_eq!(tokens.fg, "#0f1115");
    assert_eq!(tokens.accent, "#4176e6");
    assert_eq!(tokens.scheme, "light");
    assert_eq!(tokens.line, "rgba(15, 17, 21, 0.12)");
    assert_eq!(tokens.muted, "#747577");
    assert_eq!(tokens.field, "#f1f1f1");
    assert_eq!(tokens.button_fg, "#ebebeb");
}

#[test]
fn unknown_family_falls_back_to_default() {
    let section = UiThemeSection {
        preference: Some("dark".into()),
        active_light_theme_id: None,
        active_dark_theme_id: Some("nope".into()),
    };
    let snapshot = resolve_ui_theme(&section, false);
    assert_eq!(snapshot.mode, "dark");
    assert_eq!(snapshot.tokens.bg, "#151517");
    assert_eq!(snapshot.tokens.button_fg, "#151517");
}

#[test]
fn theme_key_joins_preference_mode_and_background() {
    let snapshot = resolve_ui_theme(&UiThemeSection::default(), true);
    assert_eq!(theme_key(&snapshot), "system:dark:#151517");
}
