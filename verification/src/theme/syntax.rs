//! Syntax-highlighting themes of the highlighting library, as far as the theme logic reads and
//! writes them: the theme's name and default colours, and the colours of its scope rules.

use vstd::prelude::*;

use super::ghostty::{Color, ScopeColors};
use super::names::EmbeddedTheme;

verus! {

/// A syntax-highlighting theme.
#[verifier::external_type_specification]
#[verifier::external_body]
pub struct ExSyntaxTheme(syntect::highlighting::Theme);

/// A theme's name and its default background and foreground colours.
pub struct ThemeHeader {
    pub name: Option<Seq<char>>,
    pub background: Option<Color>,
    pub foreground: Option<Color>,
}

/// The colours of the scope rules `theme` holds (`theme.scopes`), in order.
pub uninterp spec fn theme_scopes(theme: syntect::highlighting::Theme) -> Seq<ScopeColors>;

/// The name and default colours of `theme` (`theme.name`, `theme.settings.background`,
/// `theme.settings.foreground`).
pub uninterp spec fn theme_header(theme: syntect::highlighting::Theme) -> ThemeHeader;

/// The header and scope colours of the embedded theme at `index` of
/// `two_face::theme::EmbeddedLazyThemeSet::theme_names()`.
pub uninterp spec fn embedded_theme_colors(index: nat) -> (ThemeHeader, Seq<ScopeColors>);

/// The position of `theme` among the embedded themes, in the highlighting library's order.
pub open spec fn embedded_index(theme: EmbeddedTheme) -> nat {
    match theme {
        EmbeddedTheme::Ansi => 0,
        EmbeddedTheme::Base16 => 1,
        EmbeddedTheme::Base16EightiesDark => 2,
        EmbeddedTheme::Base16MochaDark => 3,
        EmbeddedTheme::Base16OceanDark => 4,
        EmbeddedTheme::Base16OceanLight => 5,
        EmbeddedTheme::Base16_256 => 6,
        EmbeddedTheme::CatppuccinFrappe => 7,
        EmbeddedTheme::CatppuccinLatte => 8,
        EmbeddedTheme::CatppuccinMacchiato => 9,
        EmbeddedTheme::CatppuccinMocha => 10,
        EmbeddedTheme::ColdarkCold => 11,
        EmbeddedTheme::ColdarkDark => 12,
        EmbeddedTheme::DarkNeon => 13,
        EmbeddedTheme::Dracula => 14,
        EmbeddedTheme::Github => 15,
        EmbeddedTheme::GruvboxDark => 16,
        EmbeddedTheme::GruvboxLight => 17,
        EmbeddedTheme::InspiredGithub => 18,
        EmbeddedTheme::Leet => 19,
        EmbeddedTheme::MonokaiExtended => 20,
        EmbeddedTheme::MonokaiExtendedBright => 21,
        EmbeddedTheme::MonokaiExtendedLight => 22,
        EmbeddedTheme::MonokaiExtendedOrigin => 23,
        EmbeddedTheme::Nord => 24,
        EmbeddedTheme::OneHalfDark => 25,
        EmbeddedTheme::OneHalfLight => 26,
        EmbeddedTheme::SolarizedDark => 27,
        EmbeddedTheme::SolarizedLight => 28,
        EmbeddedTheme::SublimeSnazzy => 29,
        EmbeddedTheme::TwoDark => 30,
        EmbeddedTheme::Zenburn => 31,
    }
}

/// Whether `theme`'s header and scope colours are those of the embedded theme `embedded`.
pub open spec fn is_embedded_theme(theme: syntect::highlighting::Theme, embedded: EmbeddedTheme) -> bool {
    (theme_header(theme), theme_scopes(theme)) == embedded_theme_colors(embedded_index(embedded))
}

/// Clones the embedded theme at `index` of `EmbeddedLazyThemeSet::theme_names()` out of
/// `two_face::theme::extra()`. Claimed: its colours are [`embedded_theme_colors`] of `index`,
/// which depend on the index alone (the themes are data compiled into the library).
#[verifier::external_body]
fn embedded_theme_at(index: usize) -> (theme: syntect::highlighting::Theme)
    requires
        index < 32,
    ensures
        (theme_header(theme), theme_scopes(theme)) == embedded_theme_colors(index as nat),
{
    two_face::theme::extra().get(two_face::theme::EmbeddedLazyThemeSet::theme_names()[index]).clone()
}

fn embedded_theme_index(theme: EmbeddedTheme) -> (i: usize)
    ensures
        i == embedded_index(theme),
{
    match theme {
        EmbeddedTheme::Ansi => 0,
        EmbeddedTheme::Base16 => 1,
        EmbeddedTheme::Base16EightiesDark => 2,
        EmbeddedTheme::Base16MochaDark => 3,
        EmbeddedTheme::Base16OceanDark => 4,
        EmbeddedTheme::Base16OceanLight => 5,
        EmbeddedTheme::Base16_256 => 6,
        EmbeddedTheme::CatppuccinFrappe => 7,
        EmbeddedTheme::CatppuccinLatte => 8,
        EmbeddedTheme::CatppuccinMacchiato => 9,
        EmbeddedTheme::CatppuccinMocha => 10,
        EmbeddedTheme::ColdarkCold => 11,
        EmbeddedTheme::ColdarkDark => 12,
        EmbeddedTheme::DarkNeon => 13,
        EmbeddedTheme::Dracula => 14,
        EmbeddedTheme::Github => 15,
        EmbeddedTheme::GruvboxDark => 16,
        EmbeddedTheme::GruvboxLight => 17,
        EmbeddedTheme::InspiredGithub => 18,
        EmbeddedTheme::Leet => 19,
        EmbeddedTheme::MonokaiExtended => 20,
        EmbeddedTheme::MonokaiExtendedBright => 21,
        EmbeddedTheme::MonokaiExtendedLight => 22,
        EmbeddedTheme::MonokaiExtendedOrigin => 23,
        EmbeddedTheme::Nord => 24,
        EmbeddedTheme::OneHalfDark => 25,
        EmbeddedTheme::OneHalfLight => 26,
        EmbeddedTheme::SolarizedDark => 27,
        EmbeddedTheme::SolarizedLight => 28,
        EmbeddedTheme::SublimeSnazzy => 29,
        EmbeddedTheme::TwoDark => 30,
        EmbeddedTheme::Zenburn => 31,
    }
}

/// A copy of the embedded theme `theme`.
pub fn embedded_theme(theme: EmbeddedTheme) -> (t: syntect::highlighting::Theme)
    ensures
        is_embedded_theme(t, theme),
{
    embedded_theme_at(embedded_theme_index(theme))
}

/// `theme.scopes.len()`.
#[verifier::external_body]
pub(crate) fn theme_scope_count(theme: &syntect::highlighting::Theme) -> (n: usize)
    ensures
        n == theme_scopes(*theme).len(),
{
    theme.scopes.len()
}

/// The foreground and background of `theme.scopes[i].style`.
#[verifier::external_body]
pub(crate) fn theme_scope_at(theme: &syntect::highlighting::Theme, i: usize) -> (c: ScopeColors)
    requires
        i < theme_scopes(*theme).len(),
    ensures
        c == theme_scopes(*theme)[i as int],
{
    let style = &theme.scopes[i].style;
    let foreground = style.foreground.map(|c| Color { r: c.r, g: c.g, b: c.b, a: c.a });
    let background = style.background.map(|c| Color { r: c.r, g: c.g, b: c.b, a: c.a });
    ScopeColors { foreground, background }
}

/// Writes the foreground and background of `theme.scopes[i].style`; nothing else changes.
#[verifier::external_body]
pub(crate) fn set_theme_scope_at(theme: &mut syntect::highlighting::Theme, i: usize, colors: ScopeColors)
    requires
        i < theme_scopes(*old(theme)).len(),
    ensures
        theme_scopes(*final(theme)) == theme_scopes(*old(theme)).update(i as int, colors),
        theme_header(*final(theme)) == theme_header(*old(theme)),
{
    let to_syntect = |c: Color| syntect::highlighting::Color { r: c.r, g: c.g, b: c.b, a: c.a };
    let style = &mut theme.scopes[i].style;
    style.foreground = colors.foreground.map(to_syntect);
    style.background = colors.background.map(to_syntect);
}

/// Writes `theme.name`, `theme.settings.background` and `theme.settings.foreground`; the
/// scope rules do not change.
#[verifier::external_body]
pub(crate) fn set_theme_header(theme: &mut syntect::highlighting::Theme, name: &str, background: Color, foreground: Color)
    ensures
        theme_header(*final(theme)) == (ThemeHeader {
            name: Some(name@),
            background: Some(background),
            foreground: Some(foreground),
        }),
        theme_scopes(*final(theme)) == theme_scopes(*old(theme)),
{
    let to_syntect = |c: Color| syntect::highlighting::Color { r: c.r, g: c.g, b: c.b, a: c.a };
    theme.name = Some(name.to_string());
    theme.settings.background = Some(to_syntect(background));
    theme.settings.foreground = Some(to_syntect(foreground));
}

} // verus!
