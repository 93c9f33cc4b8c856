use syntect::highlighting::Highlighter;
use syntect::highlighting::Theme;
use syntect::highlighting::ThemeSet;
use syntect::parsing::Scope;
use two_face::theme::EmbeddedLazyThemeSet;
use two_face::theme::EmbeddedThemeName;

use tui_logic::theme::catalog::adaptive_default_embedded_theme_name;
use tui_logic::theme::catalog::adaptive_default_theme_name;
use tui_logic::theme::catalog::list_available_themes;
use tui_logic::theme::catalog::resolve_theme_by_name;
use tui_logic::theme::catalog::resolve_theme_source;
use tui_logic::theme::catalog::resolve_theme_with_override;
use tui_logic::theme::catalog::theme_name_is_known;
use tui_logic::theme::catalog::theme_source_with_override;
use tui_logic::theme::catalog::validate_theme_name;
use tui_logic::theme::catalog::CustomThemeFile;
use tui_logic::theme::catalog::ThemeEntry;
use tui_logic::theme::catalog::ThemeOrigin;
use tui_logic::theme::catalog::ThemeSource;
use tui_logic::theme::ghostty;
use tui_logic::theme::names::builtin_theme_names;
use tui_logic::theme::names::builtin_themes;
use tui_logic::theme::names::parse_theme_name;
use tui_logic::theme::names::theme_kebab_name;
use tui_logic::theme::names::EmbeddedTheme;
use tui_logic::theme::syntax::embedded_theme;

const MINIMAL_TMTHEME: &str = r#"<?xml version="1.0" encoding="UTF-8"?>
<!DOCTYPE plist PUBLIC "-//Apple//DTD PLIST 1.0//EN" "http://www.apple.com/DTDs/PropertyList-1.0.dtd">
<plist version="1.0"><dict>
<key>name</key><string>Test</string>
<key>settings</key><array><dict>
<key>settings</key><dict>
<key>foreground</key><string>#FFFFFF</string>
<key>background</key><string>#000000</string>
</dict></dict></array>
</dict></plist>"#;

fn load_minimal_tmtheme() -> Theme {
    ThemeSet::load_from_reader(&mut std::io::Cursor::new(MINIMAL_TMTHEME.as_bytes())).expect("expected custom theme to load")
}

fn assert_rgb(color: Option<syntect::highlighting::Color>, expected: (u8, u8, u8)) {
    let color = color.expect("expected color");
    assert_eq!((color.r, color.g, color.b), expected);
    assert_eq!(color.a, 0xFF);
}

fn scope_foreground(theme: &Theme, scope_name: &str) -> Option<syntect::highlighting::Color> {
    let highlighter = Highlighter::new(theme);
    let scope = Scope::new(scope_name).ok()?;
    highlighter.style_mod_for_stack(&[scope]).foreground
}

fn home_of(dir: &tempfile::TempDir) -> std::path::PathBuf {
    dir.path().to_path_buf()
}

/// How `{home}/themes/{name}.tmTheme` displays.
fn custom_path(home: &std::path::Path, name: &str) -> String {
    home.join("themes").join(format!("{name}.tmTheme")).display().to_string()
}

fn all_embedded_in_library_order() -> Vec<EmbeddedTheme> {
    vec![
        EmbeddedTheme::Ansi,
        EmbeddedTheme::Base16,
        EmbeddedTheme::Base16EightiesDark,
        EmbeddedTheme::Base16MochaDark,
        EmbeddedTheme::Base16OceanDark,
        EmbeddedTheme::Base16OceanLight,
        EmbeddedTheme::Base16_256,
        EmbeddedTheme::CatppuccinFrappe,
        EmbeddedTheme::CatppuccinLatte,
        EmbeddedTheme::CatppuccinMacchiato,
        EmbeddedTheme::CatppuccinMocha,
        EmbeddedTheme::ColdarkCold,
        EmbeddedTheme::ColdarkDark,
        EmbeddedTheme::DarkNeon,
        EmbeddedTheme::Dracula,
        EmbeddedTheme::Github,
        EmbeddedTheme::GruvboxDark,
        EmbeddedTheme::GruvboxLight,
        EmbeddedTheme::InspiredGithub,
        EmbeddedTheme::Leet,
        EmbeddedTheme::MonokaiExtended,
        EmbeddedTheme::MonokaiExtendedBright,
        EmbeddedTheme::MonokaiExtendedLight,
        EmbeddedTheme::MonokaiExtendedOrigin,
        EmbeddedTheme::Nord,
        EmbeddedTheme::OneHalfDark,
        EmbeddedTheme::OneHalfLight,
        EmbeddedTheme::SolarizedDark,
        EmbeddedTheme::SolarizedLight,
        EmbeddedTheme::SublimeSnazzy,
        EmbeddedTheme::TwoDark,
        EmbeddedTheme::Zenburn,
    ]
}

#[test]
fn parse_theme_name_covers_all_variants() {
    let known = [
        ("ansi", EmbeddedTheme::Ansi),
        ("base16", EmbeddedTheme::Base16),
        ("base16-eighties-dark", EmbeddedTheme::Base16EightiesDark),
        ("base16-mocha-dark", EmbeddedTheme::Base16MochaDark),
        ("base16-ocean-dark", EmbeddedTheme::Base16OceanDark),
        ("base16-ocean-light", EmbeddedTheme::Base16OceanLight),
        ("base16-256", EmbeddedTheme::Base16_256),
        ("catppuccin-frappe", EmbeddedTheme::CatppuccinFrappe),
        ("catppuccin-latte", EmbeddedTheme::CatppuccinLatte),
        ("catppuccin-macchiato", EmbeddedTheme::CatppuccinMacchiato),
        ("catppuccin-mocha", EmbeddedTheme::CatppuccinMocha),
        ("coldark-cold", EmbeddedTheme::ColdarkCold),
        ("coldark-dark", EmbeddedTheme::ColdarkDark),
        ("dark-neon", EmbeddedTheme::DarkNeon),
        ("dracula", EmbeddedTheme::Dracula),
        ("github", EmbeddedTheme::Github),
        ("gruvbox-dark", EmbeddedTheme::GruvboxDark),
        ("gruvbox-light", EmbeddedTheme::GruvboxLight),
        ("inspired-github", EmbeddedTheme::InspiredGithub),
        ("1337", EmbeddedTheme::Leet),
        ("monokai-extended", EmbeddedTheme::MonokaiExtended),
        ("monokai-extended-bright", EmbeddedTheme::MonokaiExtendedBright),
        ("monokai-extended-light", EmbeddedTheme::MonokaiExtendedLight),
        ("monokai-extended-origin", EmbeddedTheme::MonokaiExtendedOrigin),
        ("nord", EmbeddedTheme::Nord),
        ("one-half-dark", EmbeddedTheme::OneHalfDark),
        ("one-half-light", EmbeddedTheme::OneHalfLight),
        ("solarized-dark", EmbeddedTheme::SolarizedDark),
        ("solarized-light", EmbeddedTheme::SolarizedLight),
        ("sublime-snazzy", EmbeddedTheme::SublimeSnazzy),
        ("two-dark", EmbeddedTheme::TwoDark),
        ("zenburn", EmbeddedTheme::Zenburn),
    ];
    for (kebab, expected) in &known {
        assert_eq!(
            parse_theme_name(kebab),
            Some(*expected),
            "parse_theme_name({kebab:?}) did not return expected variant"
        );
    }
}

#[test]
fn parse_theme_name_returns_none_for_unknown() {
    assert_eq!(parse_theme_name("nonexistent-theme"), None);
    assert_eq!(parse_theme_name(""), None);
}

#[test]
fn validate_theme_name_none_for_bundled() {
    assert!(validate_theme_name(Some("dracula"), None, CustomThemeFile::Missing).is_none());
    assert!(validate_theme_name(Some("nord"), Some("/nonexistent/themes/nord.tmTheme"), CustomThemeFile::Missing).is_none());
    assert!(validate_theme_name(Some("ghostty-3024-day"), None, CustomThemeFile::Missing).is_none());
}

#[test]
fn validate_theme_name_none_when_no_override() {
    assert!(validate_theme_name(None, None, CustomThemeFile::Missing).is_none());
}

#[test]
fn validate_theme_name_warns_for_missing_custom() {
    let dir = tempfile::tempdir().unwrap();
    let home = home_of(&dir);
    let warning = validate_theme_name(Some("my-fancy"), Some(&custom_path(&home, "my-fancy")), CustomThemeFile::Missing);
    assert!(warning.is_some(), "should warn when theme file is absent");
    let msg = warning.unwrap();
    assert!(msg.contains("my-fancy"), "warning should mention the theme name");
    assert!(msg.contains("ghostty-*"), "warning should mention Ghostty palettes");
}

#[test]
fn validate_theme_name_none_when_custom_file_is_valid() {
    let dir = tempfile::tempdir().unwrap();
    let home = home_of(&dir);
    assert!(
        validate_theme_name(Some("my-fancy"), Some(&custom_path(&home, "my-fancy")), CustomThemeFile::Valid).is_none(),
        "should not warn when custom .tmTheme file parses successfully"
    );
}

#[test]
fn validate_theme_name_warns_when_custom_file_is_invalid() {
    let dir = tempfile::tempdir().unwrap();
    let home = home_of(&dir);
    let warning = validate_theme_name(Some("my-fancy"), Some(&custom_path(&home, "my-fancy")), CustomThemeFile::Invalid);
    assert!(warning.is_some(), "should warn when custom .tmTheme exists but cannot be parsed");
    assert!(
        warning.as_deref().is_some_and(|msg| msg.contains("could not be loaded")),
        "warning should explain that the theme file is invalid"
    );
    assert!(
        warning.as_deref().is_some_and(|msg| msg.contains("Falling back to the default theme")),
        "warning should describe default fallback when no bundled theme matches"
    );
}

#[test]
fn validate_theme_name_warns_for_invalid_custom_even_when_ghostty_matches() {
    let dir = tempfile::tempdir().unwrap();
    let home = home_of(&dir);
    let name = "ghostty-3024-day";

    let warning = validate_theme_name(Some(name), Some(&custom_path(&home, name)), CustomThemeFile::Invalid);
    assert!(warning.is_some(), "invalid custom file must warn even when a Ghostty palette shares the name");
    assert!(
        warning.as_deref().is_some_and(|msg| msg.contains("could not be loaded")),
        "warning should explain that the theme file is invalid"
    );
    assert!(
        warning.as_deref().is_some_and(|msg| msg.contains("bundled theme")),
        "warning should note that the bundled Ghostty theme will be used"
    );

    let theme = resolve_theme_by_name(name, None).expect("bundled Ghostty theme should still resolve");
    assert_eq!(theme.name.as_deref(), Some(name));
}

#[test]
fn list_available_themes_excludes_invalid_custom_files() {
    let entries = list_available_themes(&["valid-custom".to_string()]);

    assert!(
        entries.iter().any(|entry| entry.name == "valid-custom" && entry.is_custom()),
        "expected valid custom theme to be listed"
    );
    assert!(
        !entries.iter().any(|entry| entry.name == "broken-custom" && entry.is_custom()),
        "expected invalid custom theme to be excluded from list"
    );
}

#[test]
fn custom_theme_takes_precedence_over_ghostty_theme_with_same_name() {
    let dir = tempfile::tempdir().unwrap();
    let name = "ghostty-3024-day";
    let expected = load_minimal_tmtheme();
    let home = home_of(&dir);

    assert!(validate_theme_name(Some(name), Some(&custom_path(&home, name)), CustomThemeFile::Valid).is_none());
    assert_eq!(resolve_theme_with_override(Some(name), Some(expected.clone()), false), expected);
    assert_eq!(resolve_theme_by_name(name, Some(expected.clone())), Some(expected));
    let matching_entries: Vec<ThemeEntry> =
        list_available_themes(&[name.to_string()]).into_iter().filter(|entry| entry.name == name).collect();
    assert_eq!(matching_entries, vec![ThemeEntry { name: name.to_string(), origin: ThemeOrigin::Custom }]);
}

#[test]
fn list_available_themes_preserves_existing_order_before_ghostty_group() {
    let customs = ["zzz-custom".to_string(), "Aaa-custom".to_string(), "mmm-custom".to_string()];
    let entries = list_available_themes(&customs);
    let mut expected: Vec<ThemeEntry> = builtin_theme_names()
        .iter()
        .map(|name| ThemeEntry { name: (*name).to_string(), origin: ThemeOrigin::Builtin })
        .collect();
    expected.extend(
        ["Aaa-custom", "mmm-custom", "zzz-custom"]
            .map(|name| ThemeEntry { name: name.to_string(), origin: ThemeOrigin::Custom }),
    );
    expected.sort_by_cached_key(|entry| (entry.name.to_ascii_lowercase(), entry.name.clone()));
    expected.extend(ghostty::names().into_iter().map(|name| ThemeEntry { name, origin: ThemeOrigin::Ghostty }));

    assert_eq!(entries, expected);
}

#[test]
fn resolve_theme_with_override_delegates_to_resolve_theme_by_name() {
    let theme = resolve_theme_with_override(Some("ghostty-3024-day"), None, false);
    let expected = resolve_theme_by_name("ghostty-3024-day", None).expect("ghostty theme");
    assert_eq!(theme, expected);

    // Unknown names fall back to the adaptive default theme object.
    let unknown = resolve_theme_with_override(Some("no-such-theme"), None, false);
    let theme_set = two_face::theme::extra();
    let default = theme_set.get(EmbeddedThemeName::CatppuccinMocha);
    assert_eq!(unknown, default.clone());
}

#[test]
fn ghostty_theme_maps_known_palette_to_rgb_colors() {
    let name = "ghostty-3024-day";
    let theme = resolve_theme_by_name(name, None)
        .unwrap_or_else(|| panic!("expected bundled Ghostty theme to resolve: {name}"));

    assert_eq!(theme.name.as_deref(), Some(name));
    assert_rgb(theme.settings.background, (0xf7, 0xf7, 0xf7));
    assert_rgb(theme.settings.foreground, (0x4a, 0x45, 0x43));
    let expected_scope_colors = [
        ("keyword", (0xa1, 0x6a, 0x94)),
        ("entity.name.function", (0x01, 0xa0, 0xe4)),
        ("constant.numeric", (0xca, 0xba, 0x00)),
        ("string", (0x01, 0xa2, 0x52)),
    ];
    for (scope, expected) in expected_scope_colors {
        assert_rgb(scope_foreground(&theme, scope), expected);
    }
}

#[test]
fn ghostty_theme_names_are_prefixed_and_unique() {
    let names: Vec<String> = ghostty::names();
    assert!(names.iter().all(|name| name.starts_with("ghostty-")));
    let unique_names: std::collections::HashSet<&str> = names.iter().map(|n| n.as_str()).collect();
    assert_eq!(unique_names.len(), names.len());
}

#[test]
fn ghostty_resolve_returns_cached_equal_themes() {
    let name = "ghostty-3024-day";
    let first = resolve_theme_by_name(name, None).expect("first resolve");
    let second = resolve_theme_by_name(name, None).expect("second resolve");
    assert_eq!(first, second);
}

#[test]
fn parse_theme_name_is_exhaustive() {
    // Every variant in the embedded set must be reachable via parse_theme_name.
    let all_variants = EmbeddedLazyThemeSet::theme_names();
    assert_eq!(all_variants.len(), 32, "two-face theme count changed — update parse_theme_name");

    let kebab_names = [
        "ansi",
        "base16",
        "base16-eighties-dark",
        "base16-mocha-dark",
        "base16-ocean-dark",
        "base16-ocean-light",
        "base16-256",
        "catppuccin-frappe",
        "catppuccin-latte",
        "catppuccin-macchiato",
        "catppuccin-mocha",
        "coldark-cold",
        "coldark-dark",
        "dark-neon",
        "dracula",
        "github",
        "gruvbox-dark",
        "gruvbox-light",
        "inspired-github",
        "1337",
        "monokai-extended",
        "monokai-extended-bright",
        "monokai-extended-light",
        "monokai-extended-origin",
        "nord",
        "one-half-dark",
        "one-half-light",
        "solarized-dark",
        "solarized-light",
        "sublime-snazzy",
        "two-dark",
        "zenburn",
    ];
    let mapped: Vec<EmbeddedTheme> = kebab_names
        .iter()
        .map(|k| parse_theme_name(k).unwrap_or_else(|| panic!("unmapped kebab name: {k}")))
        .collect();

    // Every embedded theme is reached, and in the library's order.
    assert_eq!(mapped, all_embedded_in_library_order());
}

#[test]
fn embedded_themes_follow_the_library_order() {
    let set = two_face::theme::extra();
    let library_names = EmbeddedLazyThemeSet::theme_names();
    for (ours, theirs) in all_embedded_in_library_order().into_iter().zip(library_names.iter()) {
        assert_eq!(embedded_theme(ours), set.get(*theirs).clone(), "{ours:?} maps to another embedded theme");
    }
}

#[test]
fn builtin_names_are_sorted_and_round_trip() {
    let names = builtin_theme_names();
    assert_eq!(names.len(), 32);
    assert_eq!(names[0], "1337");
    assert_eq!(names[31], "zenburn");
    let mut sorted = names.clone();
    sorted.sort();
    assert_eq!(names, sorted);
    for theme in builtin_themes() {
        assert_eq!(parse_theme_name(theme_kebab_name(theme)), Some(theme));
    }
}

#[test]
fn resolution_order_prefers_builtin_then_custom_then_palette() {
    assert_eq!(resolve_theme_source("dracula", true), Some(ThemeSource::Builtin(EmbeddedTheme::Dracula)));
    assert_eq!(resolve_theme_source("ghostty-3024-day", true), Some(ThemeSource::Custom));
    assert_eq!(resolve_theme_source("ghostty-3024-day", false), Some(ThemeSource::Ghostty));
    assert_eq!(resolve_theme_source("my-fancy", true), Some(ThemeSource::Custom));
    assert_eq!(resolve_theme_source("my-fancy", false), None);
    assert!(theme_name_is_known("nord", false));
    assert!(!theme_name_is_known("no-such-theme", false));
}

#[test]
fn adaptive_default_follows_the_background() {
    assert_eq!(adaptive_default_embedded_theme_name(true), EmbeddedTheme::CatppuccinLatte);
    assert_eq!(adaptive_default_embedded_theme_name(false), EmbeddedTheme::CatppuccinMocha);
    assert_eq!(adaptive_default_theme_name(true), "catppuccin-latte");
    assert_eq!(adaptive_default_theme_name(false), "catppuccin-mocha");
    assert_eq!(
        theme_source_with_override(Some("no-such-theme"), false, true),
        ThemeSource::Builtin(EmbeddedTheme::CatppuccinLatte)
    );
    assert_eq!(theme_source_with_override(None, true, false), ThemeSource::Builtin(EmbeddedTheme::CatppuccinMocha));
    let light = resolve_theme_with_override(None, None, true);
    assert_eq!(light, two_face::theme::extra().get(EmbeddedThemeName::CatppuccinLatte).clone());
}

#[test]
fn unknown_theme_warning_names_the_default_custom_path() {
    let msg = validate_theme_name(Some("my-fancy"), None, CustomThemeFile::Missing).expect("warning");
    assert_eq!(
        msg,
        "Theme \"my-fancy\" not found. Using the default theme. Available names include the built-in \
         two-face themes and ghostty-* palettes. To use a custom theme, place a .tmTheme file at \
         $CODEX_HOME/themes/my-fancy.tmTheme."
    );
}

#[test]
fn listing_has_each_name_once_and_custom_files_shadow_palettes() {
    let entries = list_available_themes(&[
        "dracula".to_string(),
        "ghostty-3024-day".to_string(),
        "mine".to_string(),
        "mine".to_string(),
    ]);
    let mut names: Vec<&str> = entries.iter().map(|e| e.name.as_str()).collect();
    let total = names.len();
    names.sort();
    names.dedup();
    assert_eq!(names.len(), total);
    let dracula = entries.iter().find(|e| e.name == "dracula").unwrap();
    assert_eq!(dracula.origin, ThemeOrigin::Builtin);
    let palette = entries.iter().find(|e| e.name == "ghostty-3024-day").unwrap();
    assert_eq!(palette.origin, ThemeOrigin::Custom);
    assert_eq!(entries.len(), 32 + 2 + ghostty::names().len() - 1);
}
