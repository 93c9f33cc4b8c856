//! The embedded syntax themes and their kebab-case names.

use vstd::prelude::*;

use crate::text::{chars_of, str_is};

verus! {

/// One of the syntax themes embedded in the highlighting library.
#[derive(Clone, Copy, Debug, PartialEq, Eq, Structural)]
pub enum EmbeddedTheme {
    Ansi,
    Base16,
    Base16EightiesDark,
    Base16MochaDark,
    Base16OceanDark,
    Base16OceanLight,
    Base16_256,
    CatppuccinFrappe,
    CatppuccinLatte,
    CatppuccinMacchiato,
    CatppuccinMocha,
    ColdarkCold,
    ColdarkDark,
    DarkNeon,
    Dracula,
    Github,
    GruvboxDark,
    GruvboxLight,
    InspiredGithub,
    Leet,
    MonokaiExtended,
    MonokaiExtendedBright,
    MonokaiExtendedLight,
    MonokaiExtendedOrigin,
    Nord,
    OneHalfDark,
    OneHalfLight,
    SolarizedDark,
    SolarizedLight,
    SublimeSnazzy,
    TwoDark,
    Zenburn,
}

/// The kebab-case name under which `theme` is configured.
pub open spec fn kebab_name(theme: EmbeddedTheme) -> Seq<char> {
    match theme {
        EmbeddedTheme::Ansi => "ansi"@,
        EmbeddedTheme::Base16 => "base16"@,
        EmbeddedTheme::Base16EightiesDark => "base16-eighties-dark"@,
        EmbeddedTheme::Base16MochaDark => "base16-mocha-dark"@,
        EmbeddedTheme::Base16OceanDark => "base16-ocean-dark"@,
        EmbeddedTheme::Base16OceanLight => "base16-ocean-light"@,
        EmbeddedTheme::Base16_256 => "base16-256"@,
        EmbeddedTheme::CatppuccinFrappe => "catppuccin-frappe"@,
        EmbeddedTheme::CatppuccinLatte => "catppuccin-latte"@,
        EmbeddedTheme::CatppuccinMacchiato => "catppuccin-macchiato"@,
        EmbeddedTheme::CatppuccinMocha => "catppuccin-mocha"@,
        EmbeddedTheme::ColdarkCold => "coldark-cold"@,
        EmbeddedTheme::ColdarkDark => "coldark-dark"@,
        EmbeddedTheme::DarkNeon => "dark-neon"@,
        EmbeddedTheme::Dracula => "dracula"@,
        EmbeddedTheme::Github => "github"@,
        EmbeddedTheme::GruvboxDark => "gruvbox-dark"@,
        EmbeddedTheme::GruvboxLight => "gruvbox-light"@,
        EmbeddedTheme::InspiredGithub => "inspired-github"@,
        EmbeddedTheme::Leet => "1337"@,
        EmbeddedTheme::MonokaiExtended => "monokai-extended"@,
        EmbeddedTheme::MonokaiExtendedBright => "monokai-extended-bright"@,
        EmbeddedTheme::MonokaiExtendedLight => "monokai-extended-light"@,
        EmbeddedTheme::MonokaiExtendedOrigin => "monokai-extended-origin"@,
        EmbeddedTheme::Nord => "nord"@,
        EmbeddedTheme::OneHalfDark => "one-half-dark"@,
        EmbeddedTheme::OneHalfLight => "one-half-light"@,
        EmbeddedTheme::SolarizedDark => "solarized-dark"@,
        EmbeddedTheme::SolarizedLight => "solarized-light"@,
        EmbeddedTheme::SublimeSnazzy => "sublime-snazzy"@,
        EmbeddedTheme::TwoDark => "two-dark"@,
        EmbeddedTheme::Zenburn => "zenburn"@,
    }
}

/// The kebab-case name under which `theme` is configured.
pub fn theme_kebab_name(theme: EmbeddedTheme) -> (name: &'static str)
    ensures
        name@ == kebab_name(theme),
{
    match theme {
        EmbeddedTheme::Ansi => "ansi",
        EmbeddedTheme::Base16 => "base16",
        EmbeddedTheme::Base16EightiesDark => "base16-eighties-dark",
        EmbeddedTheme::Base16MochaDark => "base16-mocha-dark",
        EmbeddedTheme::Base16OceanDark => "base16-ocean-dark",
        EmbeddedTheme::Base16OceanLight => "base16-ocean-light",
        EmbeddedTheme::Base16_256 => "base16-256",
        EmbeddedTheme::CatppuccinFrappe => "catppuccin-frappe",
        EmbeddedTheme::CatppuccinLatte => "catppuccin-latte",
        EmbeddedTheme::CatppuccinMacchiato => "catppuccin-macchiato",
        EmbeddedTheme::CatppuccinMocha => "catppuccin-mocha",
        EmbeddedTheme::ColdarkCold => "coldark-cold",
        EmbeddedTheme::ColdarkDark => "coldark-dark",
        EmbeddedTheme::DarkNeon => "dark-neon",
        EmbeddedTheme::Dracula => "dracula",
        EmbeddedTheme::Github => "github",
        EmbeddedTheme::GruvboxDark => "gruvbox-dark",
        EmbeddedTheme::GruvboxLight => "gruvbox-light",
        EmbeddedTheme::InspiredGithub => "inspired-github",
        EmbeddedTheme::Leet => "1337",
        EmbeddedTheme::MonokaiExtended => "monokai-extended",
        EmbeddedTheme::MonokaiExtendedBright => "monokai-extended-bright",
        EmbeddedTheme::MonokaiExtendedLight => "monokai-extended-light",
        EmbeddedTheme::MonokaiExtendedOrigin => "monokai-extended-origin",
        EmbeddedTheme::Nord => "nord",
        EmbeddedTheme::OneHalfDark => "one-half-dark",
        EmbeddedTheme::OneHalfLight => "one-half-light",
        EmbeddedTheme::SolarizedDark => "solarized-dark",
        EmbeddedTheme::SolarizedLight => "solarized-light",
        EmbeddedTheme::SublimeSnazzy => "sublime-snazzy",
        EmbeddedTheme::TwoDark => "two-dark",
        EmbeddedTheme::Zenburn => "zenburn",
    }
}

/// Every embedded theme, in alphabetical order of its kebab-case name.
pub open spec fn builtin_theme_order() -> Seq<EmbeddedTheme> {
    seq![
        EmbeddedTheme::Leet,
        EmbeddedTheme::Ansi,
        EmbeddedTheme::Base16,
        EmbeddedTheme::Base16_256,
        EmbeddedTheme::Base16EightiesDark,
        EmbeddedTheme::Base16MochaDark,
        EmbeddedTheme::Base16OceanDark,
        EmbeddedTheme::Base16OceanLight,
        EmbeddedTheme::CatppuccinFrappe,
        EmbeddedTheme::CatppuccinLatte,
        EmbeddedTheme::CatppuccinMacchiato,
        EmbeddedTheme::CatppuccinMocha,
        EmbeddedTheme::ColdarkCold,
        EmbeddedTheme::ColdarkDark,
        EmbeddedTheme::DarkNeon,
        EmbeddedTheme::Dracula,
        EmbeddedTheme::Github,
        EmbeddedTheme::GruvboxDark,
        EmbeddedTheme::GruvboxLight,
        EmbeddedTheme::InspiredGithub,
        EmbeddedTheme::MonokaiExtended,
        EmbeddedTheme::MonokaiExtendedBright,
        EmbeddedTheme::MonokaiExtendedLight,
        EmbeddedTheme::MonokaiExtendedOrigin,
        EmbeddedTheme::Nord,
        EmbeddedTheme::OneHalfDark,
        EmbeddedTheme::OneHalfLight,
        EmbeddedTheme::SolarizedDark,
        EmbeddedTheme::SolarizedLight,
        EmbeddedTheme::SublimeSnazzy,
        EmbeddedTheme::TwoDark,
        EmbeddedTheme::Zenburn,
    ]
}

/// The kebab-case names of all embedded themes, ordered alphabetically.
pub open spec fn builtin_theme_names_spec() -> Seq<Seq<char>> {
    builtin_theme_order().map_values(|t: EmbeddedTheme| kebab_name(t))
}

/// Every embedded theme, in alphabetical order of its kebab-case name.
pub fn builtin_themes() -> (themes: Vec<EmbeddedTheme>)
    ensures
        themes@ == builtin_theme_order(),
{
    let themes = vec![
        EmbeddedTheme::Leet,
        EmbeddedTheme::Ansi,
        EmbeddedTheme::Base16,
        EmbeddedTheme::Base16_256,
        EmbeddedTheme::Base16EightiesDark,
        EmbeddedTheme::Base16MochaDark,
        EmbeddedTheme::Base16OceanDark,
        EmbeddedTheme::Base16OceanLight,
        EmbeddedTheme::CatppuccinFrappe,
        EmbeddedTheme::CatppuccinLatte,
        EmbeddedTheme::CatppuccinMacchiato,
        EmbeddedTheme::CatppuccinMocha,
        EmbeddedTheme::ColdarkCold,
        EmbeddedTheme::ColdarkDark,
        EmbeddedTheme::DarkNeon,
        EmbeddedTheme::Dracula,
        EmbeddedTheme::Github,
        EmbeddedTheme::GruvboxDark,
        EmbeddedTheme::GruvboxLight,
        EmbeddedTheme::InspiredGithub,
        EmbeddedTheme::MonokaiExtended,
        EmbeddedTheme::MonokaiExtendedBright,
        EmbeddedTheme::MonokaiExtendedLight,
        EmbeddedTheme::MonokaiExtendedOrigin,
        EmbeddedTheme::Nord,
        EmbeddedTheme::OneHalfDark,
        EmbeddedTheme::OneHalfLight,
        EmbeddedTheme::SolarizedDark,
        EmbeddedTheme::SolarizedLight,
        EmbeddedTheme::SublimeSnazzy,
        EmbeddedTheme::TwoDark,
        EmbeddedTheme::Zenburn,
    ];
    assert(themes@ =~= builtin_theme_order());
    themes
}

/// The kebab-case names of all embedded themes, ordered alphabetically.
pub fn builtin_theme_names() -> (names: Vec<&'static str>)
    ensures
        names@.len() == builtin_theme_names_spec().len(),
        forall|i: int| 0 <= i < names@.len() ==> #[trigger] names@[i]@ == builtin_theme_names_spec()[i],
{
    let themes = builtin_themes();
    let mut names: Vec<&'static str> = Vec::new();
    for i in 0..themes.len()
        invariant
            themes@ == builtin_theme_order(),
            names@.len() == i,
            forall|k: int| 0 <= k < i ==> #[trigger] names@[k]@ == kebab_name(themes@[k]),
    {
        names.push(theme_kebab_name(themes[i]));
    }
    names
}

/// The embedded theme whose kebab-case name is `name`, if there is one.
pub open spec fn theme_for_name(name: Seq<char>) -> Option<EmbeddedTheme> {
    if exists|theme: EmbeddedTheme| #[trigger] kebab_name(theme) == name {
        Some(choose|theme: EmbeddedTheme| #[trigger] kebab_name(theme) == name)
    } else {
        None
    }
}

/// Maps a kebab-case theme name to the embedded theme it names, if any.
pub fn parse_theme_name(name: &str) -> (r: Option<EmbeddedTheme>)
    ensures
        r == theme_for_name(name@),
        match r {
            Some(theme) => kebab_name(theme) == name@,
            None => forall|theme: EmbeddedTheme| #[trigger] kebab_name(theme) != name@,
        },
{
    let chars = chars_of(name);
    let themes = builtin_themes();
    for i in 0..themes.len()
        invariant
            themes@ == builtin_theme_order(),
            chars@ == name@,
            forall|k: int| 0 <= k < i ==> kebab_name(#[trigger] themes@[k]) != name@,
    {
        if str_is(chars.as_slice(), theme_kebab_name(themes[i])) {
            proof {
                let t = choose|theme: EmbeddedTheme| #[trigger] kebab_name(theme) == name@;
                lemma_kebab_name_injective(t, themes@[i as int]);
            }
            return Some(themes[i]);
        }
    }
    proof {
        assert forall|theme: EmbeddedTheme| #[trigger] kebab_name(theme) != name@ by {
            lemma_builtin_order_complete(theme);
            let k = choose|k: int| 0 <= k < builtin_theme_order().len() && builtin_theme_order()[k] == theme;
            assert(kebab_name(themes@[k]) != name@);
        }
    }
    None
}

/// Every embedded theme appears in the builtin order.
pub proof fn lemma_builtin_order_complete(theme: EmbeddedTheme)
    ensures
        exists|k: int| 0 <= k < builtin_theme_order().len() && builtin_theme_order()[k] == theme,
{
    match theme {
        EmbeddedTheme::Leet => assert(builtin_theme_order()[0] == theme),
        EmbeddedTheme::Ansi => assert(builtin_theme_order()[1] == theme),
        EmbeddedTheme::Base16 => assert(builtin_theme_order()[2] == theme),
        EmbeddedTheme::Base16_256 => assert(builtin_theme_order()[3] == theme),
        EmbeddedTheme::Base16EightiesDark => assert(builtin_theme_order()[4] == theme),
        EmbeddedTheme::Base16MochaDark => assert(builtin_theme_order()[5] == theme),
        EmbeddedTheme::Base16OceanDark => assert(builtin_theme_order()[6] == theme),
        EmbeddedTheme::Base16OceanLight => assert(builtin_theme_order()[7] == theme),
        EmbeddedTheme::CatppuccinFrappe => assert(builtin_theme_order()[8] == theme),
        EmbeddedTheme::CatppuccinLatte => assert(builtin_theme_order()[9] == theme),
        EmbeddedTheme::CatppuccinMacchiato => assert(builtin_theme_order()[10] == theme),
        EmbeddedTheme::CatppuccinMocha => assert(builtin_theme_order()[11] == theme),
        EmbeddedTheme::ColdarkCold => assert(builtin_theme_order()[12] == theme),
        EmbeddedTheme::ColdarkDark => assert(builtin_theme_order()[13] == theme),
        EmbeddedTheme::DarkNeon => assert(builtin_theme_order()[14] == theme),
        EmbeddedTheme::Dracula => assert(builtin_theme_order()[15] == theme),
        EmbeddedTheme::Github => assert(builtin_theme_order()[16] == theme),
        EmbeddedTheme::GruvboxDark => assert(builtin_theme_order()[17] == theme),
        EmbeddedTheme::GruvboxLight => assert(builtin_theme_order()[18] == theme),
        EmbeddedTheme::InspiredGithub => assert(builtin_theme_order()[19] == theme),
        EmbeddedTheme::MonokaiExtended => assert(builtin_theme_order()[20] == theme),
        EmbeddedTheme::MonokaiExtendedBright => assert(builtin_theme_order()[21] == theme),
        EmbeddedTheme::MonokaiExtendedLight => assert(builtin_theme_order()[22] == theme),
        EmbeddedTheme::MonokaiExtendedOrigin => assert(builtin_theme_order()[23] == theme),
        EmbeddedTheme::Nord => assert(builtin_theme_order()[24] == theme),
        EmbeddedTheme::OneHalfDark => assert(builtin_theme_order()[25] == theme),
        EmbeddedTheme::OneHalfLight => assert(builtin_theme_order()[26] == theme),
        EmbeddedTheme::SolarizedDark => assert(builtin_theme_order()[27] == theme),
        EmbeddedTheme::SolarizedLight => assert(builtin_theme_order()[28] == theme),
        EmbeddedTheme::SublimeSnazzy => assert(builtin_theme_order()[29] == theme),
        EmbeddedTheme::TwoDark => assert(builtin_theme_order()[30] == theme),
        EmbeddedTheme::Zenburn => assert(builtin_theme_order()[31] == theme),
    }
}

/// The character of `s` at `i`, or NUL past its end.
pub open spec fn char_or_nul(s: Seq<char>, i: int) -> char {
    if 0 <= i < s.len() {
        s[i]
    } else {
        '\0'
    }
}

/// A few characters of a name that already tell all embedded theme names apart.
pub open spec fn name_signature(s: Seq<char>) -> (int, char, char, char) {
    (s.len() as int, char_or_nul(s, 0), char_or_nul(s, 11), char_or_nul(s, 17))
}

/// The signature of each embedded theme's name, written out.
pub open spec fn theme_signature(theme: EmbeddedTheme) -> (int, char, char, char) {
    match theme {
        EmbeddedTheme::Ansi => (4, 'a', '\0', '\0'),
        EmbeddedTheme::Base16 => (6, 'b', '\0', '\0'),
        EmbeddedTheme::Base16EightiesDark => (20, 'b', 't', 'a'),
        EmbeddedTheme::Base16MochaDark => (17, 'b', 'a', '\0'),
        EmbeddedTheme::Base16OceanDark => (17, 'b', 'n', '\0'),
        EmbeddedTheme::Base16OceanLight => (18, 'b', 'n', 't'),
        EmbeddedTheme::Base16_256 => (10, 'b', '\0', '\0'),
        EmbeddedTheme::CatppuccinFrappe => (17, 'c', 'f', '\0'),
        EmbeddedTheme::CatppuccinLatte => (16, 'c', 'l', '\0'),
        EmbeddedTheme::CatppuccinMacchiato => (20, 'c', 'm', 'a'),
        EmbeddedTheme::CatppuccinMocha => (16, 'c', 'm', '\0'),
        EmbeddedTheme::ColdarkCold => (12, 'c', 'd', '\0'),
        EmbeddedTheme::ColdarkDark => (12, 'c', 'k', '\0'),
        EmbeddedTheme::DarkNeon => (9, 'd', '\0', '\0'),
        EmbeddedTheme::Dracula => (7, 'd', '\0', '\0'),
        EmbeddedTheme::Github => (6, 'g', '\0', '\0'),
        EmbeddedTheme::GruvboxDark => (12, 'g', 'k', '\0'),
        EmbeddedTheme::GruvboxLight => (13, 'g', 'h', '\0'),
        EmbeddedTheme::InspiredGithub => (15, 'i', 't', '\0'),
        EmbeddedTheme::Leet => (4, '1', '\0', '\0'),
        EmbeddedTheme::MonokaiExtended => (16, 'm', 'e', '\0'),
        EmbeddedTheme::MonokaiExtendedBright => (23, 'm', 'e', 'b'),
        EmbeddedTheme::MonokaiExtendedLight => (22, 'm', 'e', 'l'),
        EmbeddedTheme::MonokaiExtendedOrigin => (23, 'm', 'e', 'o'),
        EmbeddedTheme::Nord => (4, 'n', '\0', '\0'),
        EmbeddedTheme::OneHalfDark => (13, 'o', 'r', '\0'),
        EmbeddedTheme::OneHalfLight => (14, 'o', 'g', '\0'),
        EmbeddedTheme::SolarizedDark => (14, 's', 'a', '\0'),
        EmbeddedTheme::SolarizedLight => (15, 's', 'i', '\0'),
        EmbeddedTheme::SublimeSnazzy => (14, 's', 'z', '\0'),
        EmbeddedTheme::TwoDark => (8, 't', '\0', '\0'),
        EmbeddedTheme::Zenburn => (7, 'z', '\0', '\0'),
    }
}

proof fn lemma_name_signature(theme: EmbeddedTheme)
    ensures
        name_signature(kebab_name(theme)) == theme_signature(theme),
{
    match theme {
        EmbeddedTheme::Ansi => reveal_strlit("ansi"),
        EmbeddedTheme::Base16 => reveal_strlit("base16"),
        EmbeddedTheme::Base16EightiesDark => reveal_strlit("base16-eighties-dark"),
        EmbeddedTheme::Base16MochaDark => reveal_strlit("base16-mocha-dark"),
        EmbeddedTheme::Base16OceanDark => reveal_strlit("base16-ocean-dark"),
        EmbeddedTheme::Base16OceanLight => reveal_strlit("base16-ocean-light"),
        EmbeddedTheme::Base16_256 => reveal_strlit("base16-256"),
        EmbeddedTheme::CatppuccinFrappe => reveal_strlit("catppuccin-frappe"),
        EmbeddedTheme::CatppuccinLatte => reveal_strlit("catppuccin-latte"),
        EmbeddedTheme::CatppuccinMacchiato => reveal_strlit("catppuccin-macchiato"),
        EmbeddedTheme::CatppuccinMocha => reveal_strlit("catppuccin-mocha"),
        EmbeddedTheme::ColdarkCold => reveal_strlit("coldark-cold"),
        EmbeddedTheme::ColdarkDark => reveal_strlit("coldark-dark"),
        EmbeddedTheme::DarkNeon => reveal_strlit("dark-neon"),
        EmbeddedTheme::Dracula => reveal_strlit("dracula"),
        EmbeddedTheme::Github => reveal_strlit("github"),
        EmbeddedTheme::GruvboxDark => reveal_strlit("gruvbox-dark"),
        EmbeddedTheme::GruvboxLight => reveal_strlit("gruvbox-light"),
        EmbeddedTheme::InspiredGithub => reveal_strlit("inspired-github"),
        EmbeddedTheme::Leet => reveal_strlit("1337"),
        EmbeddedTheme::MonokaiExtended => reveal_strlit("monokai-extended"),
        EmbeddedTheme::MonokaiExtendedBright => reveal_strlit("monokai-extended-bright"),
        EmbeddedTheme::MonokaiExtendedLight => reveal_strlit("monokai-extended-light"),
        EmbeddedTheme::MonokaiExtendedOrigin => reveal_strlit("monokai-extended-origin"),
        EmbeddedTheme::Nord => reveal_strlit("nord"),
        EmbeddedTheme::OneHalfDark => reveal_strlit("one-half-dark"),
        EmbeddedTheme::OneHalfLight => reveal_strlit("one-half-light"),
        EmbeddedTheme::SolarizedDark => reveal_strlit("solarized-dark"),
        EmbeddedTheme::SolarizedLight => reveal_strlit("solarized-light"),
        EmbeddedTheme::SublimeSnazzy => reveal_strlit("sublime-snazzy"),
        EmbeddedTheme::TwoDark => reveal_strlit("two-dark"),
        EmbeddedTheme::Zenburn => reveal_strlit("zenburn"),
    }
}

/// Distinct embedded themes have distinct kebab-case names, so a name selects at most one theme.
pub proof fn lemma_kebab_name_injective(a: EmbeddedTheme, b: EmbeddedTheme)
    requires
        kebab_name(a) == kebab_name(b),
    ensures
        a == b,
{
    lemma_name_signature(a);
    lemma_name_signature(b);
}

/// Every embedded theme is reached from its own kebab-case name, and from no other name.
pub proof fn law_theme_name_round_trip(theme: EmbeddedTheme)
    ensures
        theme_for_name(kebab_name(theme)) == Some(theme),
{
    let t = choose|t: EmbeddedTheme| #[trigger] kebab_name(t) == kebab_name(theme);
    lemma_kebab_name_injective(t, theme);
}

/// Each name in the builtin list resolves to the embedded theme listed at that position.
pub proof fn law_builtin_names_resolve(i: int)
    requires
        0 <= i < builtin_theme_names_spec().len(),
    ensures
        theme_for_name(builtin_theme_names_spec()[i]) == Some(builtin_theme_order()[i]),
{
    law_theme_name_round_trip(builtin_theme_order()[i]);
}

} // verus!
