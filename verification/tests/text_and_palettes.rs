use tui_logic::text::chars_eq;
use tui_logic::text::chars_of;
use tui_logic::text::compare_chars;
use tui_logic::text::split_chars;
use tui_logic::text::string_from_chars;
use tui_logic::text::to_ascii_lowercase;
use tui_logic::theme::catalog::validate_theme_name;
use tui_logic::theme::catalog::CustomThemeFile;
use tui_logic::theme::ghostty::contains;
use tui_logic::theme::ghostty::find;
use tui_logic::theme::ghostty::parse_catalog;
use tui_logic::theme::ghostty::parse_rgb;
use tui_logic::theme::ghostty::parse_row;
use tui_logic::theme::ghostty::resolve_ansi_color;
use tui_logic::theme::ghostty::syntect_color;
use tui_logic::theme::ghostty::Color;
use tui_logic::theme::ghostty::ANSI_ALPHA_DEFAULT;
use tui_logic::theme::ghostty::ANSI_ALPHA_INDEX;
use tui_logic::theme::ghostty::OPAQUE_ALPHA;

fn chars(s: &str) -> Vec<char> {
    s.chars().collect()
}

#[test]
fn character_helpers() {
    assert_eq!(chars_of("日本a"), vec!['日', '本', 'a']);
    assert!(chars_eq(&chars("abc"), &chars("abc")));
    assert!(!chars_eq(&chars("abc"), &chars("abd")));
    assert_eq!(string_from_chars(&chars("héllo")), "héllo");
    let pieces: Vec<String> = split_chars(&chars("a\tb\t\tc"), '\t').iter().map(|p| p.iter().collect()).collect();
    assert_eq!(pieces, vec!["a", "b", "", "c"]);
    assert_eq!(split_chars(&[], '\t').len(), 1);
    assert_eq!(compare_chars(&chars("abc"), &chars("abd")), -1);
    assert_eq!(compare_chars(&chars("b"), &chars("abc")), 1);
    assert_eq!(compare_chars(&chars("ab"), &chars("ab")), 0);
    assert_eq!(compare_chars(&chars("ab"), &chars("abc")), -1);
    assert_eq!(to_ascii_lowercase(&chars("AbC-É")), chars("abc-É"));
}

#[test]
fn parse_rgb_reads_six_hex_digits() {
    assert_eq!(parse_rgb("f7f7f7"), Some([0xf7, 0xf7, 0xf7]));
    assert_eq!(parse_rgb("4A4543"), Some([0x4a, 0x45, 0x43]));
    assert_eq!(parse_rgb("+f0a0b"), Some([0x0f, 0x0a, 0x0b]));
    assert_eq!(parse_rgb("f7f7f"), None);
    assert_eq!(parse_rgb("f7f7f7f"), None);
    assert_eq!(parse_rgb("g7f7f7"), None);
}

#[test]
fn palette_rows_and_catalogs() {
    let row = "ghostty-x\t000000\tffffff\t000001\t000002\t000003\t000004\t000005\t000006\t000007\t000008\t000009\t00000a\t00000b\t00000c\t00000d\t00000e\t00000f\t000010";
    let theme = parse_row(&chars(row)).expect("row");
    assert_eq!(theme.name, chars("ghostty-x"));
    assert_eq!(theme.background, [0, 0, 0]);
    assert_eq!(theme.foreground, [0xff, 0xff, 0xff]);
    assert_eq!(theme.palette.len(), 16);
    assert_eq!(theme.palette[15], [0, 0, 0x10]);
    assert!(parse_row(&chars("ghostty-x\t000000\tffffff")).is_none());

    let data = format!("# comment\r\n{}\r\n\n{}\n", row.replace("ghostty-x", "ghostty-z"), row);
    let catalog = parse_catalog(&chars(&data)).expect("catalog");
    let names: Vec<String> = catalog.iter().map(|t| t.name.iter().collect()).collect();
    assert_eq!(names, vec!["ghostty-x", "ghostty-z"]);
    assert!(parse_catalog(&chars("ghostty-bad\tzz\n")).is_none());
}

#[test]
fn bundled_palette_lookup() {
    assert!(contains("ghostty-3024-day"));
    assert!(!contains("ghostty-none"));
    let t = find("ghostty-3024-day").expect("bundled palette");
    assert_eq!(t.background, [0xf7, 0xf7, 0xf7]);
    assert_eq!(t.palette[5], [0xa1, 0x6a, 0x94]);
    assert!(find("dracula").is_none());
}

#[test]
fn ansi_colours_resolve_against_the_palette() {
    let palette = [[1, 2, 3], [4, 5, 6]];
    let indexed = Color { r: 1, g: 0, b: 0, a: ANSI_ALPHA_INDEX };
    assert_eq!(resolve_ansi_color(indexed, [9, 9, 9], &palette), Color { r: 4, g: 5, b: 6, a: OPAQUE_ALPHA });
    let past_palette = Color { r: 7, g: 0, b: 0, a: ANSI_ALPHA_INDEX };
    assert_eq!(resolve_ansi_color(past_palette, [9, 9, 9], &palette), past_palette);
    let default = Color { r: 0, g: 0, b: 0, a: ANSI_ALPHA_DEFAULT };
    assert_eq!(resolve_ansi_color(default, [9, 8, 7], &palette), syntect_color([9, 8, 7]));
    let plain = Color { r: 10, g: 20, b: 30, a: OPAQUE_ALPHA };
    assert_eq!(resolve_ansi_color(plain, [9, 8, 7], &palette), plain);
}

#[test]
fn warnings_name_the_custom_theme_path_under_the_home_directory() {
    let msg = validate_theme_name(Some("my-fancy"), Some("/home/u/.codex/themes/my-fancy.tmTheme"), CustomThemeFile::Invalid).expect("warning");
    assert_eq!(
        msg,
        "Custom theme \"my-fancy\" at /home/u/.codex/themes/my-fancy.tmTheme could not be loaded (invalid .tmTheme \
         format). Falling back to the default theme."
    );
}
