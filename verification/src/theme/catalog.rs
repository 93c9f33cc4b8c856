//! Theme discovery and resolution.
//!
//! Resolution order (first match wins): an embedded theme of that kebab-case name, then a
//! custom `{home}/themes/{name}.tmTheme` that loads, then a bundled terminal palette.
//!
//! Listing keeps the embedded + custom group sorted case-insensitively, then appends the
//! bundled palettes that no custom file of the same name overrides.

use vstd::prelude::*;
use vstd::string::StringExecFns;

use crate::text::{
    ascii_lowercase, chars_eq, chars_of, compare_chars, lemma_lex_order_antisymmetric, lemma_lex_order_range,
    lemma_lex_order_transitive, lemma_lex_order_zero, lex_order, string_from_chars,
    to_ascii_lowercase,
};
use crate::theme::ghostty;
use crate::theme::ghostty::{ghostty_has, is_ghostty_theme};
use crate::theme::syntax::{embedded_theme, is_embedded_theme};
use crate::theme::names::{
    EmbeddedTheme, builtin_theme_names, builtin_theme_names_spec, kebab_name, parse_theme_name,
    theme_for_name,
};

verus! {

/// Where a picker entry or a resolved theme came from.
#[derive(Clone, Copy, Debug, PartialEq, Eq, Structural)]
pub enum ThemeOrigin {
    /// An embedded theme.
    Builtin,
    /// A user `.tmTheme` file under `{home}/themes/`.
    Custom,
    /// A bundled terminal palette adapted to the ANSI syntax theme.
    Ghostty,
}

/// A theme available in the picker.
#[derive(Debug, PartialEq, Eq)]
pub struct ThemeEntry {
    /// Kebab-case identifier used for configuration and theme resolution.
    pub name: String,
    /// Provenance of this entry.
    pub origin: ThemeOrigin,
}

/// The value of a [`ThemeEntry`].
pub struct ThemeEntryView {
    pub name: Seq<char>,
    pub origin: ThemeOrigin,
}

impl View for ThemeEntry {
    type V = ThemeEntryView;

    open spec fn view(&self) -> ThemeEntryView {
        ThemeEntryView { name: self.name@, origin: self.origin }
    }
}

impl ThemeEntry {
    /// `true` when this entry was discovered from a `.tmTheme` file on disk.
    pub fn is_custom(&self) -> (r: bool)
        ensures
            r == (self.origin == ThemeOrigin::Custom),
    {
        matches!(self.origin, ThemeOrigin::Custom)
    }
}

/// What is found at `{home}/themes/{name}.tmTheme`.
#[derive(Clone, Copy, Debug, PartialEq, Eq, Structural)]
pub enum CustomThemeFile {
    /// No regular file is there.
    Missing,
    /// A file is there but does not load as a `.tmTheme`.
    Invalid,
    /// A `.tmTheme` loads from there.
    Valid,
}

/// Where a theme name resolves to.
#[derive(Clone, Copy, Debug, PartialEq, Eq, Structural)]
pub enum ThemeSource {
    /// The embedded theme of that name.
    Builtin(EmbeddedTheme),
    /// The custom `.tmTheme` file of that name.
    Custom,
    /// The bundled terminal palette of that name.
    Ghostty,
}

/// Where `name` resolves to, in resolution order, given whether a custom file of that name
/// loads; `None` when the name is unknown.
pub open spec fn theme_source_of(name: Seq<char>, custom_theme_loads: bool) -> Option<ThemeSource> {
    match theme_for_name(name) {
        Some(t) => Some(ThemeSource::Builtin(t)),
        None => if custom_theme_loads {
            Some(ThemeSource::Custom)
        } else if ghostty_has(name) {
            Some(ThemeSource::Ghostty)
        } else {
            None
        },
    }
}

/// Resolves `name`: embedded theme, then a custom `.tmTheme` that loads (as
/// `custom_theme_loads` reports; pass `false` when no home directory is configured), then a
/// bundled palette. `None` when the name is unknown.
pub fn resolve_theme_source(name: &str, custom_theme_loads: bool) -> (r: Option<ThemeSource>)
    ensures
        r == theme_source_of(name@, custom_theme_loads),
{
    if let Some(embedded) = parse_theme_name(name) {
        return Some(ThemeSource::Builtin(embedded));
    }
    if custom_theme_loads {
        return Some(ThemeSource::Custom);
    }
    if ghostty::contains(name) {
        Some(ThemeSource::Ghostty)
    } else {
        None
    }
}

/// Whether `name` resolves via an embedded theme, a custom file that loads, or a bundled
/// palette.
pub fn theme_name_is_known(name: &str, custom_theme_loads: bool) -> (r: bool)
    ensures
        r == (theme_source_of(name@, custom_theme_loads) is Some),
        r == (theme_for_name(name@) is Some || custom_theme_loads || ghostty_has(name@)),
{
    if parse_theme_name(name).is_some() {
        return true;
    }
    if custom_theme_loads {
        return true;
    }
    ghostty::contains(name)
}

/// The embedded theme picked when no configured theme applies: the light variant on a
/// terminal whose background is known to be light, the dark one otherwise.
pub open spec fn adaptive_default(light_background: bool) -> EmbeddedTheme {
    if light_background {
        EmbeddedTheme::CatppuccinLatte
    } else {
        EmbeddedTheme::CatppuccinMocha
    }
}

/// The adaptive default theme, given whether the terminal reported a light background.
pub fn adaptive_default_embedded_theme_name(light_background: bool) -> (t: EmbeddedTheme)
    ensures
        t == adaptive_default(light_background),
{
    if light_background {
        EmbeddedTheme::CatppuccinLatte
    } else {
        EmbeddedTheme::CatppuccinMocha
    }
}

/// The kebab-case name of the adaptive default theme.
pub fn adaptive_default_theme_name(light_background: bool) -> (name: &'static str)
    ensures
        name@ == kebab_name(adaptive_default(light_background)),
{
    if light_background {
        "catppuccin-latte"
    } else {
        "catppuccin-mocha"
    }
}

/// The theme a configured name (if any) selects, falling back to the adaptive default when
/// no name is configured or it does not resolve.
pub open spec fn theme_choice(name: Option<Seq<char>>, custom_theme_loads: bool, light_background: bool) -> ThemeSource {
    match name {
        Some(n) => match theme_source_of(n, custom_theme_loads) {
            Some(src) => src,
            None => ThemeSource::Builtin(adaptive_default(light_background)),
        },
        None => ThemeSource::Builtin(adaptive_default(light_background)),
    }
}

/// Resolves an optional configured name to where its theme comes from, falling back to the
/// adaptive default theme.
pub fn theme_source_with_override(
    name: Option<&str>,
    custom_theme_loads: bool,
    light_background: bool,
) -> (r: ThemeSource)
    ensures
        r == theme_choice(
            match name {
                Some(n) => Some(n@),
                None => None,
            },
            custom_theme_loads,
            light_background,
        ),
{
    if let Some(name) = name {
        if let Some(source) = resolve_theme_source(name, custom_theme_loads) {
            return source;
        }
    }
    ThemeSource::Builtin(adaptive_default_embedded_theme_name(light_background))
}

/// Whether `theme` is the theme that `source` stands for: the embedded theme, the custom
/// theme that was loaded, or the bundled palette `name`.
pub open spec fn is_theme_of_source(
    theme: syntect::highlighting::Theme,
    source: ThemeSource,
    name: Seq<char>,
    custom_theme: Option<syntect::highlighting::Theme>,
) -> bool {
    match source {
        ThemeSource::Builtin(embedded) => is_embedded_theme(theme, embedded),
        ThemeSource::Custom => custom_theme == Some(theme),
        ThemeSource::Ghostty => is_ghostty_theme(theme, name),
    }
}

/// Resolves `name` to a theme: embedded theme, then the custom `.tmTheme` loaded from
/// `{home}/themes/{name}.tmTheme` (`custom_theme`; `None` when there is no home directory or
/// the file does not load), then a bundled palette. `None` when the name is unknown.
pub fn resolve_theme_by_name(name: &str, custom_theme: Option<syntect::highlighting::Theme>) -> (r: Option<
    syntect::highlighting::Theme,
>)
    ensures
        match theme_source_of(name@, custom_theme is Some) {
            Some(source) => r is Some && is_theme_of_source(r->0, source, name@, custom_theme),
            None => r is None,
        },
{
    if let Some(embedded) = parse_theme_name(name) {
        return Some(embedded_theme(embedded));
    }
    if let Some(theme) = custom_theme {
        return Some(theme);
    }
    ghostty::resolve(name)
}

/// Resolves an optional configured name to a theme, falling back to the adaptive default
/// theme when no name is configured or it does not resolve.
pub fn resolve_theme_with_override(
    name: Option<&str>,
    custom_theme: Option<syntect::highlighting::Theme>,
    light_background: bool,
) -> (r: syntect::highlighting::Theme)
    ensures
        is_theme_of_source(
            r,
            theme_choice(
                match name {
                    Some(n) => Some(n@),
                    None => None,
                },
                custom_theme is Some,
                light_background,
            ),
            match name {
                Some(n) => n@,
                None => Seq::empty(),
            },
            custom_theme,
        ),
{
    if let Some(name) = name {
        if let Some(theme) = resolve_theme_by_name(name, custom_theme) {
            return theme;
        }
    }
    embedded_theme(adaptive_default_embedded_theme_name(light_background))
}

/// The path display used in warnings when no home directory is configured.
pub open spec fn default_custom_path_display(name: Seq<char>) -> Seq<char> {
    "$CODEX_HOME/themes/"@ + name + ".tmTheme"@
}

/// The warning for a custom theme file that exists but does not load.
pub open spec fn invalid_custom_theme_message(name: Seq<char>, path_display: Seq<char>, bundled: bool) -> Seq<char> {
    "Custom theme \""@ + name + "\" at "@ + path_display + " could not be loaded (invalid .tmTheme format). "@
        + if bundled {
        "A bundled theme with this name will be used instead."@
    } else {
        "Falling back to the default theme."@
    }
}

/// The warning for a theme name that resolves nowhere.
pub open spec fn unknown_theme_message(name: Seq<char>, path_display: Seq<char>) -> Seq<char> {
    "Theme \""@ + name
        + "\" not found. Using the default theme. Available names include the built-in two-face themes and ghostty-* palettes. To use a custom theme, place a .tmTheme file at "@
        + path_display + "."@
}

/// The warning (if any) for the configured theme `name`: an invalid custom file always
/// warns, even when a bundled theme of that name will be used; otherwise a name that
/// resolves gives none and one that does not is reported as unknown.
pub open spec fn theme_warning(name: Seq<char>, has_home: bool, custom: CustomThemeFile, path_display: Seq<char>) -> Option<Seq<char>> {
    if has_home && custom == CustomThemeFile::Invalid {
        Some(invalid_custom_theme_message(name, path_display, theme_for_name(name) is Some || ghostty_has(name)))
    } else if theme_source_of(name, has_home && custom == CustomThemeFile::Valid) is Some {
        None
    } else {
        Some(unknown_theme_message(name, path_display))
    }
}

fn append_str(s: &mut String, t: &str)
    ensures
        final(s)@ == old(s)@ + t@,
{
    s.append(t);
}

/// The warning text for `name`, given where a custom file of that name would live.
pub fn theme_warning_message(name: &str, has_home: bool, custom: CustomThemeFile, path_display: &str) -> (r: Option<String>)
    ensures
        match r {
            Some(m) => theme_warning(name@, has_home, custom, path_display@) == Some(m@),
            None => theme_warning(name@, has_home, custom, path_display@) is None,
        },
{
    if has_home && custom == CustomThemeFile::Invalid {
        let bundled = parse_theme_name(name).is_some() || ghostty::contains(name);
        let mut m = String::from_str("Custom theme \"");
        append_str(&mut m, name);
        append_str(&mut m, "\" at ");
        append_str(&mut m, path_display);
        append_str(&mut m, " could not be loaded (invalid .tmTheme format). ");
        if bundled {
            append_str(&mut m, "A bundled theme with this name will be used instead.");
        } else {
            append_str(&mut m, "Falling back to the default theme.");
        }
        return Some(m);
    }
    if theme_name_is_known(name, has_home && custom == CustomThemeFile::Valid) {
        return None;
    }
    let mut m = String::from_str("Theme \"");
    append_str(&mut m, name);
    append_str(
        &mut m,
        "\" not found. Using the default theme. Available names include the built-in two-face themes and ghostty-* palettes. To use a custom theme, place a .tmTheme file at ",
    );
    append_str(&mut m, path_display);
    append_str(&mut m, ".");
    Some(m)
}

/// Checks whether the configured theme resolves. Returns a user-facing warning when it does
/// not, or when a custom file of that name exists but is invalid. When a home directory is
/// configured, `custom_theme_path_display` is how `{home}/themes/{name}.tmTheme` displays
/// and `custom` describes what is found there; without one it is `None`, `custom` does not
/// matter, and warnings name `$CODEX_HOME/themes/{name}.tmTheme`.
pub fn validate_theme_name(name: Option<&str>, custom_theme_path_display: Option<&str>, custom: CustomThemeFile) -> (r:
    Option<String>)
    ensures
        match name {
            None => r is None,
            Some(n) => {
                let warning = match custom_theme_path_display {
                    Some(p) => theme_warning(n@, true, custom, p@),
                    None => theme_warning(n@, false, custom, default_custom_path_display(n@)),
                };
                match r {
                    Some(m) => warning == Some(m@),
                    None => warning is None,
                }
            },
        },
{
    let name = name?;
    match custom_theme_path_display {
        Some(display) => theme_warning_message(name, true, custom, display),
        None => {
            let mut d = String::from_str("$CODEX_HOME/themes/");
            append_str(&mut d, name);
            append_str(&mut d, ".tmTheme");
            theme_warning_message(name, false, custom, d.as_str())
        },
    }
}

/// The listing order: case-insensitive by name, ties broken by the exact name.
pub open spec fn entry_order(a: Seq<char>, b: Seq<char>) -> int {
    let folded = lex_order(ascii_lowercase(a), ascii_lowercase(b));
    if folded != 0 {
        folded
    } else {
        lex_order(a, b)
    }
}

/// The names of a run of entries.
pub open spec fn entry_names(s: Seq<ThemeEntryView>) -> Seq<Seq<char>> {
    s.map_values(|e: ThemeEntryView| e.name)
}

/// `entries` extended by each of `names` (tagged `origin`) whose name is not yet listed.
pub open spec fn add_new_names(entries: Seq<ThemeEntryView>, names: Seq<Seq<char>>, origin: ThemeOrigin) -> Seq<ThemeEntryView>
    decreases names.len(),
{
    if names.len() == 0 {
        entries
    } else {
        let prev = add_new_names(entries, names.drop_last(), origin);
        if entry_names(prev).contains(names.last()) {
            prev
        } else {
            prev.push(ThemeEntryView { name: names.last(), origin })
        }
    }
}

/// `sorted` with `e` inserted after every entry that sorts at or before it.
pub open spec fn insert_entry(sorted: Seq<ThemeEntryView>, e: ThemeEntryView) -> Seq<ThemeEntryView>
    decreases sorted.len(),
{
    if sorted.len() == 0 {
        seq![e]
    } else if entry_order(sorted.last().name, e.name) <= 0 {
        sorted.push(e)
    } else {
        insert_entry(sorted.drop_last(), e).push(sorted.last())
    }
}

/// The stable sort of `s` in listing order.
pub open spec fn sort_entries(s: Seq<ThemeEntryView>) -> Seq<ThemeEntryView>
    decreases s.len(),
{
    if s.len() == 0 {
        s
    } else {
        insert_entry(sort_entries(s.drop_last()), s.last())
    }
}

/// The entries of the embedded themes, in the builtin order.
pub open spec fn builtin_entries() -> Seq<ThemeEntryView> {
    builtin_theme_names_spec().map_values(|n: Seq<char>| ThemeEntryView { name: n, origin: ThemeOrigin::Builtin })
}

/// The names of the bundled palettes, in catalog order.
pub open spec fn ghostty_names() -> Seq<Seq<char>> {
    ghostty::ghostty_names_of_catalog()
}

/// The picker listing, given the names of the custom `.tmTheme` files that load (in
/// directory order): embedded and new custom names sorted together, then the bundled
/// palettes whose names are not listed yet.
pub open spec fn theme_listing(custom_names: Seq<Seq<char>>) -> Seq<ThemeEntryView> {
    add_new_names(
        sort_entries(add_new_names(builtin_entries(), custom_names, ThemeOrigin::Custom)),
        ghostty_names(),
        ThemeOrigin::Ghostty,
    )
}

struct NamedEntry {
    name: Vec<char>,
    origin: ThemeOrigin,
}

impl View for NamedEntry {
    type V = ThemeEntryView;

    closed spec fn view(&self) -> ThemeEntryView {
        ThemeEntryView { name: self.name@, origin: self.origin }
    }
}

spec fn named_views(v: Seq<NamedEntry>) -> Seq<ThemeEntryView> {
    v.map_values(|e: NamedEntry| e@)
}

fn compare_entries(a: &[char], b: &[char]) -> (r: i8)
    ensures
        r as int == entry_order(a@, b@),
{
    let la = to_ascii_lowercase(a);
    let lb = to_ascii_lowercase(b);
    let folded = compare_chars(la.as_slice(), lb.as_slice());
    if folded != 0 {
        folded
    } else {
        compare_chars(a, b)
    }
}

fn is_listed(entries: &Vec<NamedEntry>, name: &[char]) -> (r: bool)
    ensures
        r == entry_names(named_views(entries@)).contains(name@),
{
    let ghost names = entry_names(named_views(entries@));
    for i in 0..entries.len()
        invariant
            names == entry_names(named_views(entries@)),
            forall|k: int| 0 <= k < i ==> names[k] != name@,
    {
        assert(names[i as int] == entries@[i as int].name@);
        if chars_eq(entries[i].name.as_slice(), name) {
            return true;
        }
    }
    false
}

fn add_if_new(entries: &mut Vec<NamedEntry>, name: Vec<char>, origin: ThemeOrigin)
    ensures
        named_views(final(entries)@) == if entry_names(named_views(old(entries)@)).contains(name@) {
            named_views(old(entries)@)
        } else {
            named_views(old(entries)@).push(ThemeEntryView { name: name@, origin })
        },
{
    if !is_listed(entries, name.as_slice()) {
        let ghost before = named_views(entries@);
        entries.push(NamedEntry { name, origin });
        assert(named_views(entries@) =~= before.push(entries@.last()@));
    }
}

proof fn lemma_insert_entry_at(sorted: Seq<ThemeEntryView>, e: ThemeEntryView, pos: int)
    requires
        0 <= pos <= sorted.len(),
        pos == 0 || entry_order(sorted[pos - 1].name, e.name) <= 0,
        forall|k: int| pos <= k < sorted.len() ==> entry_order(#[trigger] sorted[k].name, e.name) > 0,
    ensures
        insert_entry(sorted, e) == sorted.take(pos) + seq![e] + sorted.skip(pos),
    decreases sorted.len(),
{
    if sorted.len() == 0 {
        assert(sorted.take(pos) + seq![e] + sorted.skip(pos) =~= seq![e]);
    } else if entry_order(sorted.last().name, e.name) <= 0 {
        assert(pos == sorted.len());
        assert(sorted.take(pos) + seq![e] + sorted.skip(pos) =~= sorted.push(e));
    } else {
        let s2 = sorted.drop_last();
        lemma_insert_entry_at(s2, e, pos);
        assert(s2.take(pos) + seq![e] + s2.skip(pos) + seq![sorted.last()] =~= sorted.take(pos) + seq![e]
            + sorted.skip(pos));
    }
}

fn insert_entry_sorted(v: &mut Vec<NamedEntry>, e: NamedEntry)
    ensures
        named_views(final(v)@) == insert_entry(named_views(old(v)@), e@),
{
    let ghost s = named_views(v@);
    let mut pos = v.len();
    while pos > 0 && compare_entries(v[pos - 1].name.as_slice(), e.name.as_slice()) > 0
        invariant
            pos <= v@.len(),
            s == named_views(v@),
            forall|k: int| pos <= k < s.len() ==> entry_order(#[trigger] s[k].name, e@.name) > 0,
        decreases pos,
    {
        pos = pos - 1;
    }
    proof {
        lemma_insert_entry_at(s, e@, pos as int);
    }
    v.insert(pos, e);
    assert(named_views(v@) =~= s.take(pos as int) + seq![e@] + s.skip(pos as int));
}

fn sorted_entries(v: Vec<NamedEntry>) -> (r: Vec<NamedEntry>)
    ensures
        named_views(r@) == sort_entries(named_views(v@)),
{
    let ghost input = named_views(v@);
    let mut out: Vec<NamedEntry> = Vec::new();
    let mut rest = v;
    let mut i: usize = 0;
    let n = rest.len();
    while i < n
        invariant
            n == input.len(),
            i <= n,
            rest@.len() == n - i,
            forall|k: int| 0 <= k < rest@.len() ==> #[trigger] rest@[k]@ == input[k + i],
            named_views(out@) == sort_entries(input.take(i as int)),
        decreases n - i,
    {
        let e = rest.remove(0);
        proof {
            assert(input.take(i + 1).drop_last() =~= input.take(i as int));
            assert(input.take(i + 1).last() == e@);
        }
        insert_entry_sorted(&mut out, e);
        i = i + 1;
    }
    assert(input.take(n as int) =~= input);
    out
}

/// Lists picker themes: the embedded themes and the custom `.tmTheme` files that load
/// (`custom_names`, in directory order, each kept only if its name is not listed yet),
/// sorted case-insensitively, then every bundled palette whose name is not listed yet.
pub fn list_available_themes(custom_names: &[String]) -> (r: Vec<ThemeEntry>)
    ensures
        r@.len() == theme_listing(custom_names@.map_values(|s: String| s@)).len(),
        forall|k: int| 0 <= k < r@.len() ==> #[trigger] r@[k]@ == theme_listing(
            custom_names@.map_values(|s: String| s@),
        )[k],
{
    let ghost customs = custom_names@.map_values(|s: String| s@);
    let builtin = builtin_theme_names();
    let mut entries: Vec<NamedEntry> = Vec::new();
    for i in 0..builtin.len()
        invariant
            builtin@.len() == builtin_theme_names_spec().len(),
            forall|k: int| 0 <= k < builtin@.len() ==> #[trigger] builtin@[k]@ == builtin_theme_names_spec()[k],
            named_views(entries@) == builtin_entries().take(i as int),
    {
        let ghost before = named_views(entries@);
        let name = chars_of(builtin[i]);
        assert(name@ == builtin_theme_names_spec()[i as int]);
        entries.push(NamedEntry { name, origin: ThemeOrigin::Builtin });
        assert(entries@.last()@ == builtin_entries()[i as int]);
        assert(named_views(entries@) =~= before.push(entries@.last()@));
        assert(named_views(entries@) =~= builtin_entries().take(i + 1));
    }
    assert(builtin_entries().take(builtin@.len() as int) =~= builtin_entries());
    for i in 0..custom_names.len()
        invariant
            customs == custom_names@.map_values(|s: String| s@),
            named_views(entries@) == add_new_names(builtin_entries(), customs.take(i as int), ThemeOrigin::Custom),
    {
        assert(customs.take(i + 1).drop_last() =~= customs.take(i as int));
        add_if_new(&mut entries, chars_of(custom_names[i].as_str()), ThemeOrigin::Custom);
    }
    assert(customs.take(custom_names@.len() as int) =~= customs);
    let mut entries = sorted_entries(entries);
    let ghosts = ghostty::names();
    let ghost gnames = ghostty_names();
    assert(ghosts@.len() == gnames.len());
    assert(forall|k: int| 0 <= k < gnames.len() ==> #[trigger] ghosts@[k]@ == gnames[k]);
    let ghost sorted = named_views(entries@);
    for i in 0..ghosts.len()
        invariant
            ghosts@.len() == gnames.len(),
            forall|k: int| 0 <= k < gnames.len() ==> #[trigger] ghosts@[k]@ == gnames[k],
            named_views(entries@) == add_new_names(sorted, gnames.take(i as int), ThemeOrigin::Ghostty),
    {
        assert(gnames.take(i + 1).drop_last() =~= gnames.take(i as int));
        add_if_new(&mut entries, chars_of(ghosts[i].as_str()), ThemeOrigin::Ghostty);
    }
    assert(gnames.take(ghosts@.len() as int) =~= gnames);
    let ghost listing = named_views(entries@);
    let mut out: Vec<ThemeEntry> = Vec::new();
    for i in 0..entries.len()
        invariant
            listing == named_views(entries@),
            out@.len() == i,
            forall|k: int| 0 <= k < i ==> #[trigger] out@[k]@ == listing[k],
    {
        out.push(ThemeEntry { name: string_from_chars(entries[i].name.as_slice()), origin: entries[i].origin });
    }
    out
}

/// Whether some entry of `s` is called `n`.
pub open spec fn has_name(s: Seq<ThemeEntryView>, n: Seq<char>) -> bool {
    exists|k: int| 0 <= k < s.len() && #[trigger] s[k].name == n
}

/// Whether no two entries of `s` share a name.
pub open spec fn unique_names(s: Seq<ThemeEntryView>) -> bool {
    forall|i: int, j: int| 0 <= i < j < s.len() ==> #[trigger] s[i].name != #[trigger] s[j].name
}

proof fn lemma_entry_names_contains(s: Seq<ThemeEntryView>, n: Seq<char>)
    ensures
        entry_names(s).contains(n) == has_name(s, n),
{
    if has_name(s, n) {
        let k = choose|k: int| 0 <= k < s.len() && #[trigger] s[k].name == n;
        assert(entry_names(s)[k] == n);
    }
}

proof fn lemma_add_new_names(entries: Seq<ThemeEntryView>, names: Seq<Seq<char>>, origin: ThemeOrigin)
    requires
        unique_names(entries),
    ensures
        unique_names(add_new_names(entries, names, origin)),
        forall|n: Seq<char>| #[trigger] has_name(add_new_names(entries, names, origin), n) <==> (has_name(entries, n)
            || names.contains(n)),
        add_new_names(entries, names, origin).len() >= entries.len(),
        forall|k: int| 0 <= k < entries.len() ==> #[trigger] add_new_names(entries, names, origin)[k] == entries[k],
        forall|k: int|
            entries.len() <= k < add_new_names(entries, names, origin).len() ==> (#[trigger] add_new_names(
                entries,
                names,
                origin,
            )[k]).origin == origin && !has_name(entries, add_new_names(entries, names, origin)[k].name),
    decreases names.len(),
{
    if names.len() > 0 {
        let d = names.drop_last();
        lemma_add_new_names(entries, d, origin);
        let prev = add_new_names(entries, d, origin);
        lemma_entry_names_contains(prev, names.last());
        let r = add_new_names(entries, names, origin);
        assert forall|n: Seq<char>| #[trigger] has_name(r, n) <==> (has_name(entries, n) || names.contains(n)) by {
            if names.contains(n) && !d.contains(n) {
                let k = choose|k: int| 0 <= k < names.len() && names[k] == n;
                if k < names.len() - 1 {
                    assert(d[k] == n);
                }
                assert(n == names.last());
                if !has_name(prev, n) {
                    assert(r[r.len() - 1].name == n);
                }
            }
            if d.contains(n) {
                let k = choose|k: int| 0 <= k < d.len() && d[k] == n;
                assert(names[k] == n);
            }
            if has_name(r, n) && !has_name(prev, n) {
                let k = choose|k: int| 0 <= k < r.len() && #[trigger] r[k].name == n;
                assert(k == r.len() - 1);
                assert(names[names.len() - 1] == n);
            }
            if has_name(prev, n) {
                let k = choose|k: int| 0 <= k < prev.len() && #[trigger] prev[k].name == n;
                assert(r[k] == prev[k]);
            }
        }
    }
}

proof fn lemma_insert_entry_split(sorted: Seq<ThemeEntryView>, e: ThemeEntryView) -> (pos: int)
    ensures
        0 <= pos <= sorted.len(),
        insert_entry(sorted, e) == sorted.take(pos) + seq![e] + sorted.skip(pos),
    decreases sorted.len(),
{
    if sorted.len() == 0 {
        assert(sorted.take(0) + seq![e] + sorted.skip(0) =~= seq![e]);
        0
    } else if entry_order(sorted.last().name, e.name) <= 0 {
        assert(sorted.take(sorted.len() as int) + seq![e] + sorted.skip(sorted.len() as int) =~= sorted.push(e));
        sorted.len() as int
    } else {
        let s2 = sorted.drop_last();
        let p = lemma_insert_entry_split(s2, e);
        assert(s2.take(p) + seq![e] + s2.skip(p) + seq![sorted.last()] =~= sorted.take(p) + seq![e]
            + sorted.skip(p));
        p
    }
}

proof fn lemma_sort_entries(s: Seq<ThemeEntryView>)
    requires
        unique_names(s),
    ensures
        unique_names(sort_entries(s)),
        sort_entries(s).len() == s.len(),
        forall|n: Seq<char>| #[trigger] has_name(sort_entries(s), n) <==> has_name(s, n),
        forall|x: ThemeEntryView| #[trigger] sort_entries(s).contains(x) <==> s.contains(x),
    decreases s.len(),
{
    if s.len() > 0 {
        let d = s.drop_last();
        let e = s.last();
        assert(unique_names(d));
        lemma_sort_entries(d);
        let sd = sort_entries(d);
        let p = lemma_insert_entry_split(sd, e);
        let r = sort_entries(s);
        assert(r == sd.take(p) + seq![e] + sd.skip(p));
        assert(!has_name(d, e.name)) by {
            if has_name(d, e.name) {
                let k = choose|k: int| 0 <= k < d.len() && #[trigger] d[k].name == e.name;
                assert(s[k].name == s[s.len() - 1].name);
            }
        }
        assert forall|k: int| 0 <= k < r.len() implies (k < p ==> #[trigger] r[k] == sd[k]) && (k == p ==> r[k] == e)
            && (k > p ==> r[k] == sd[k - 1]) by {}
        assert forall|i: int, j: int| 0 <= i < j < r.len() implies #[trigger] r[i].name != #[trigger] r[j].name by {
            if i == p {
                assert(!has_name(sd, e.name));
                assert(sd[j - 1].name == r[j].name);
            } else if j == p {
                assert(!has_name(sd, e.name));
                assert(sd[i].name == r[i].name);
            } else {
                let i2 = if i < p { i } else { i - 1 };
                let j2 = if j < p { j } else { j - 1 };
                assert(sd[i2].name == r[i].name);
                assert(sd[j2].name == r[j].name);
            }
        }
        assert forall|n: Seq<char>| #[trigger] has_name(r, n) <==> has_name(s, n) by {
            if has_name(r, n) {
                let k = choose|k: int| 0 <= k < r.len() && #[trigger] r[k].name == n;
                if k == p {
                    assert(s[s.len() - 1].name == n);
                } else {
                    let k2 = if k < p { k } else { k - 1 };
                    assert(sd[k2].name == n);
                    assert(has_name(sd, n));
                    assert(has_name(d, n));
                    let m = choose|m: int| 0 <= m < d.len() && #[trigger] d[m].name == n;
                    assert(s[m].name == n);
                }
            }
            if has_name(s, n) {
                let k = choose|k: int| 0 <= k < s.len() && #[trigger] s[k].name == n;
                if k == s.len() - 1 {
                    assert(r[p].name == n);
                } else {
                    assert(d[k].name == n);
                    assert(has_name(sd, n));
                    let m = choose|m: int| 0 <= m < sd.len() && #[trigger] sd[m].name == n;
                    let m2 = if m < p { m } else { m + 1 };
                    assert(r[m2].name == n);
                }
            }
        }
        assert forall|x: ThemeEntryView| #[trigger] r.contains(x) <==> s.contains(x) by {
            if r.contains(x) {
                let k = choose|k: int| 0 <= k < r.len() && r[k] == x;
                if k == p {
                    assert(s[s.len() - 1] == x);
                } else {
                    let k2 = if k < p { k } else { k - 1 };
                    assert(sd[k2] == x);
                    assert(sd.contains(x));
                    let m = choose|m: int| 0 <= m < d.len() && d[m] == x;
                    assert(s[m] == x);
                }
            }
            if s.contains(x) {
                let k = choose|k: int| 0 <= k < s.len() && s[k] == x;
                if k == s.len() - 1 {
                    assert(r[p] == x);
                } else {
                    assert(d[k] == x);
                    assert(d.contains(x));
                    assert(sd.contains(x));
                    let m = choose|m: int| 0 <= m < sd.len() && sd[m] == x;
                    let m2 = if m < p { m } else { m + 1 };
                    assert(r[m2] == x);
                }
            }
        }
    }
}

proof fn lemma_builtin_entries_unique()
    ensures
        unique_names(builtin_entries()),
{
    let b = builtin_entries();
    assert forall|i: int, j: int| 0 <= i < j < b.len() implies #[trigger] b[i].name != #[trigger] b[j].name by {
        let order = crate::theme::names::builtin_theme_order();
        assert(b[i].name == kebab_name(order[i]));
        assert(b[j].name == kebab_name(order[j]));
        if kebab_name(order[i]) == kebab_name(order[j]) {
            crate::theme::names::lemma_kebab_name_injective(order[i], order[j]);
        }
    }
}

/// No name appears twice in the picker listing.
pub proof fn law_listing_names_unique(custom_names: Seq<Seq<char>>)
    ensures
        unique_names(theme_listing(custom_names)),
{
    lemma_builtin_entries_unique();
    lemma_add_new_names(builtin_entries(), custom_names, ThemeOrigin::Custom);
    let group = add_new_names(builtin_entries(), custom_names, ThemeOrigin::Custom);
    lemma_sort_entries(group);
    lemma_add_new_names(sort_entries(group), ghostty_names(), ThemeOrigin::Ghostty);
}

/// Every custom file that loads is listed, as a custom entry unless an embedded theme has
/// its name; in particular it takes the place of a bundled palette of the same name.
pub proof fn law_custom_themes_listed(custom_names: Seq<Seq<char>>, n: Seq<char>)
    requires
        custom_names.contains(n),
    ensures
        has_name(theme_listing(custom_names), n),
        theme_for_name(n) is None ==> theme_listing(custom_names).contains(
            ThemeEntryView { name: n, origin: ThemeOrigin::Custom },
        ),
{
    lemma_builtin_entries_unique();
    let b = builtin_entries();
    lemma_add_new_names(b, custom_names, ThemeOrigin::Custom);
    let group = add_new_names(b, custom_names, ThemeOrigin::Custom);
    lemma_sort_entries(group);
    let sorted = sort_entries(group);
    lemma_add_new_names(sorted, ghostty_names(), ThemeOrigin::Ghostty);
    let listing = theme_listing(custom_names);
    assert(has_name(group, n));
    if theme_for_name(n) is None {
        assert(!has_name(b, n)) by {
            if has_name(b, n) {
                let k = choose|k: int| 0 <= k < b.len() && #[trigger] b[k].name == n;
                crate::theme::names::law_builtin_names_resolve(k);
            }
        }
        let k = choose|k: int| 0 <= k < group.len() && #[trigger] group[k].name == n;
        assert(k >= b.len());
        assert(group[k].origin == ThemeOrigin::Custom);
        assert(group[k] == ThemeEntryView { name: n, origin: ThemeOrigin::Custom });
        assert(group.contains(group[k]));
        assert(sorted.contains(group[k]));
        let m = choose|m: int| 0 <= m < sorted.len() && sorted[m] == group[k];
        assert(listing[m] == sorted[m]);
        assert(listing.contains(listing[m]));
    }
}

/// Every bundled palette's name is listed, and a palette entry is listed only when no
/// embedded theme or custom file has its name.
pub proof fn law_bundled_palettes_listed(custom_names: Seq<Seq<char>>, n: Seq<char>)
    ensures
        ghostty_names().contains(n) ==> has_name(theme_listing(custom_names), n),
        theme_listing(custom_names).contains(ThemeEntryView { name: n, origin: ThemeOrigin::Ghostty })
            ==> !has_name(add_new_names(builtin_entries(), custom_names, ThemeOrigin::Custom), n),
{
    lemma_builtin_entries_unique();
    let b = builtin_entries();
    lemma_add_new_names(b, custom_names, ThemeOrigin::Custom);
    let group = add_new_names(b, custom_names, ThemeOrigin::Custom);
    lemma_sort_entries(group);
    let sorted = sort_entries(group);
    lemma_add_new_names(sorted, ghostty_names(), ThemeOrigin::Ghostty);
    let listing = theme_listing(custom_names);
    if listing.contains(ThemeEntryView { name: n, origin: ThemeOrigin::Ghostty }) {
        let k = choose|k: int| 0 <= k < listing.len() && listing[k] == ThemeEntryView { name: n, origin: ThemeOrigin::Ghostty };
        if k < sorted.len() {
            assert(sorted[k] == listing[k]);
            assert(sorted.contains(sorted[k]));
            assert(group.contains(sorted[k]));
            let m = choose|m: int| 0 <= m < group.len() && group[m] == sorted[k];
            if m < b.len() {
                assert(b[m].origin == ThemeOrigin::Builtin);
            }
            assert(group[m].origin == ThemeOrigin::Custom || group[m].origin == ThemeOrigin::Builtin);
        } else {
            assert(!has_name(sorted, listing[k].name));
        }
    }
}

/// Whether `s` is in listing order.
pub open spec fn in_listing_order(s: Seq<ThemeEntryView>) -> bool {
    forall|i: int, j: int| 0 <= i < j < s.len() ==> entry_order(#[trigger] s[i].name, #[trigger] s[j].name) <= 0
}

proof fn lemma_entry_order_antisymmetric(a: Seq<char>, b: Seq<char>)
    ensures
        entry_order(a, b) == -entry_order(b, a),
{
    lemma_lex_order_antisymmetric(ascii_lowercase(a), ascii_lowercase(b));
    lemma_lex_order_antisymmetric(a, b);
}

proof fn lemma_entry_order_transitive(a: Seq<char>, b: Seq<char>, c: Seq<char>)
    requires
        entry_order(a, b) <= 0,
        entry_order(b, c) <= 0,
    ensures
        entry_order(a, c) <= 0,
{
    let (fa, fb, fc) = (ascii_lowercase(a), ascii_lowercase(b), ascii_lowercase(c));
    lemma_lex_order_range(fa, fb);
    lemma_lex_order_range(fb, fc);
    lemma_lex_order_transitive(fa, fb, fc);
    lemma_lex_order_zero(fa, fc);
    lemma_lex_order_zero(fa, fb);
    lemma_lex_order_zero(fb, fc);
    lemma_lex_order_antisymmetric(fa, fb);
    if lex_order(fa, fc) == 0 {
        assert(lex_order(fb, fa) <= 0);
        assert(lex_order(fa, fb) == 0);
        assert(lex_order(fb, fc) == 0);
        lemma_lex_order_transitive(a, b, c);
    }
}

proof fn lemma_insert_entry_in_order(sorted: Seq<ThemeEntryView>, e: ThemeEntryView)
    requires
        in_listing_order(sorted),
    ensures
        in_listing_order(insert_entry(sorted, e)),
    decreases sorted.len(),
{
    if sorted.len() > 0 {
        let n = sorted.len() - 1;
        let last = sorted.last();
        assert(sorted[n] == last);
        if entry_order(last.name, e.name) <= 0 {
            let r = sorted.push(e);
            assert forall|i: int, j: int| 0 <= i < j < r.len() implies entry_order(#[trigger] r[i].name, #[trigger] r[j].name) <= 0 by {
                if j == n + 1 && i < n {
                    lemma_entry_order_transitive(sorted[i].name, last.name, e.name);
                }
            }
        } else {
            let dl = sorted.drop_last();
            assert(in_listing_order(dl)) by {
                assert forall|i: int, j: int| 0 <= i < j < dl.len() implies entry_order(#[trigger] dl[i].name, #[trigger] dl[j].name) <= 0 by {
                    assert(dl[i] == sorted[i] && dl[j] == sorted[j]);
                }
            }
            lemma_insert_entry_in_order(dl, e);
            let ins = insert_entry(dl, e);
            let p = lemma_insert_entry_split(dl, e);
            lemma_entry_order_antisymmetric(last.name, e.name);
            let r = ins.push(last);
            assert forall|i: int, j: int| 0 <= i < j < r.len() implies entry_order(#[trigger] r[i].name, #[trigger] r[j].name) <= 0 by {
                if j == r.len() - 1 {
                    assert(r[i] == ins[i]);
                    if i < p {
                        assert(ins[i] == dl[i]);
                        assert(sorted[i] == dl[i]);
                    } else if i == p {
                        assert(ins[i] == e);
                    } else {
                        assert(ins[i] == dl[i - 1]);
                        assert(sorted[i - 1] == dl[i - 1]);
                    }
                } else {
                    assert(r[i] == ins[i] && r[j] == ins[j]);
                }
            }
        }
    }
}

proof fn lemma_sort_entries_in_order(s: Seq<ThemeEntryView>)
    ensures
        in_listing_order(sort_entries(s)),
    decreases s.len(),
{
    if s.len() > 0 {
        lemma_sort_entries_in_order(s.drop_last());
        lemma_insert_entry_in_order(sort_entries(s.drop_last()), s.last());
    }
}

/// The picker listing starts with the embedded and custom themes, sorted case-insensitively
/// (ties broken by the exact name), and every entry after them is a bundled palette.
pub proof fn law_listing_sorted_before_palettes(custom_names: Seq<Seq<char>>)
    ensures
        ({
            let group = sort_entries(add_new_names(builtin_entries(), custom_names, ThemeOrigin::Custom));
            let listing = theme_listing(custom_names);
            &&& group.len() <= listing.len()
            &&& listing.take(group.len() as int) == group
            &&& in_listing_order(group)
            &&& forall|k: int| group.len() <= k < listing.len() ==> (#[trigger] listing[k]).origin == ThemeOrigin::Ghostty
        }),
{
    lemma_builtin_entries_unique();
    lemma_add_new_names(builtin_entries(), custom_names, ThemeOrigin::Custom);
    let unsorted = add_new_names(builtin_entries(), custom_names, ThemeOrigin::Custom);
    lemma_sort_entries(unsorted);
    let group = sort_entries(unsorted);
    lemma_add_new_names(group, ghostty_names(), ThemeOrigin::Ghostty);
    lemma_sort_entries_in_order(unsorted);
    let listing = theme_listing(custom_names);
    assert(listing.take(group.len() as int) =~= group);
}

/// Resolution order, first match wins: an embedded theme of that name, then a custom file
/// that loads, then a bundled palette.
pub proof fn law_resolution_order(name: Seq<char>, custom_theme_loads: bool)
    ensures
        theme_for_name(name) matches Some(t) ==> theme_source_of(name, custom_theme_loads) == Some(ThemeSource::Builtin(t)),
        theme_for_name(name) is None && custom_theme_loads ==> theme_source_of(name, custom_theme_loads) == Some(
            ThemeSource::Custom,
        ),
        theme_for_name(name) is None && !custom_theme_loads && ghostty_has(name) ==> theme_source_of(
            name,
            custom_theme_loads,
        ) == Some(ThemeSource::Ghostty),
        theme_for_name(name) is None && !custom_theme_loads && !ghostty_has(name) ==> theme_source_of(
            name,
            custom_theme_loads,
        ) is None,
{
}

/// A custom file that exists but does not load always draws a warning, even when a bundled
/// theme of that name will be used; otherwise a bundled name never does.
pub proof fn law_invalid_custom_file_always_warns(name: Seq<char>, custom: CustomThemeFile, path_display: Seq<char>)
    ensures
        theme_warning(name, true, CustomThemeFile::Invalid, path_display) == Some(
            invalid_custom_theme_message(name, path_display, theme_for_name(name) is Some || ghostty_has(name)),
        ),
        (theme_for_name(name) is Some || ghostty_has(name)) && custom != CustomThemeFile::Invalid ==> theme_warning(
            name,
            true,
            custom,
            path_display,
        ) is None,
        theme_for_name(name) is Some || ghostty_has(name) ==> theme_warning(name, false, custom, path_display) is None,
{
}

proof fn lemma_builtin_has_name(n: Seq<char>)
    ensures
        has_name(builtin_entries(), n) <==> builtin_theme_names_spec().contains(n),
{
    let b = builtin_entries();
    let names = builtin_theme_names_spec();
    if has_name(b, n) {
        let k = choose|k: int| 0 <= k < b.len() && #[trigger] b[k].name == n;
        assert(names[k] == n);
    }
    if names.contains(n) {
        let k = choose|k: int| 0 <= k < names.len() && names[k] == n;
        assert(b[k].name == n);
    }
}

/// Every embedded theme is listed as embedded; a custom entry comes only from a custom file
/// that loads and whose name no embedded theme has; a palette entry only from a bundled
/// palette whose name neither an embedded theme nor a custom file has.
pub proof fn law_listing_origins(custom_names: Seq<Seq<char>>)
    ensures
        ({
            let listing = theme_listing(custom_names);
            let builtin = builtin_theme_names_spec();
            &&& forall|i: int|
                0 <= i < builtin.len() ==> listing.contains(
                    ThemeEntryView { name: #[trigger] builtin[i], origin: ThemeOrigin::Builtin },
                )
            &&& forall|k: int|
                0 <= k < listing.len() ==> match (#[trigger] listing[k]).origin {
                    ThemeOrigin::Builtin => builtin.contains(listing[k].name),
                    ThemeOrigin::Custom => custom_names.contains(listing[k].name) && !builtin.contains(listing[k].name),
                    ThemeOrigin::Ghostty => ghostty_names().contains(listing[k].name) && !builtin.contains(
                        listing[k].name,
                    ) && !custom_names.contains(listing[k].name),
                }
        }),
{
    lemma_builtin_entries_unique();
    let b = builtin_entries();
    let builtin = builtin_theme_names_spec();
    lemma_add_new_names(b, custom_names, ThemeOrigin::Custom);
    let group = add_new_names(b, custom_names, ThemeOrigin::Custom);
    lemma_sort_entries(group);
    let sorted = sort_entries(group);
    lemma_add_new_names(sorted, ghostty_names(), ThemeOrigin::Ghostty);
    let listing = theme_listing(custom_names);
    assert forall|i: int| 0 <= i < builtin.len() implies listing.contains(
        ThemeEntryView { name: #[trigger] builtin[i], origin: ThemeOrigin::Builtin },
    ) by {
        assert(group[i] == b[i]);
        assert(group.contains(group[i]));
        assert(sorted.contains(group[i]));
        let m = choose|m: int| 0 <= m < sorted.len() && sorted[m] == group[i];
        assert(listing[m] == sorted[m]);
    }
    assert forall|k: int| 0 <= k < listing.len() implies match (#[trigger] listing[k]).origin {
        ThemeOrigin::Builtin => builtin.contains(listing[k].name),
        ThemeOrigin::Custom => custom_names.contains(listing[k].name) && !builtin.contains(listing[k].name),
        ThemeOrigin::Ghostty => ghostty_names().contains(listing[k].name) && !builtin.contains(listing[k].name)
            && !custom_names.contains(listing[k].name),
    } by {
        let n = listing[k].name;
        lemma_builtin_has_name(n);
        if k < sorted.len() {
            assert(listing[k] == sorted[k]);
            assert(sorted.contains(sorted[k]));
            assert(group.contains(sorted[k]));
            let m = choose|m: int| 0 <= m < group.len() && group[m] == sorted[k];
            if m < b.len() {
                assert(group[m] == b[m]);
                assert(builtin[m] == n);
            } else {
                assert(has_name(group, n));
                assert(group[m].origin == ThemeOrigin::Custom);
            }
        } else {
            assert(has_name(listing, n));
            assert(!has_name(sorted, n));
            assert(!has_name(group, n));
        }
    }
}

/// Whether `names[i]` is `n`.
pub open spec fn named_at(names: Seq<Seq<char>>, i: int, n: Seq<char>) -> bool {
    0 <= i < names.len() && names[i] == n
}

/// The entries that adding `names` appends come from `names`, in the order of `names`.
proof fn lemma_add_new_names_order(entries: Seq<ThemeEntryView>, names: Seq<Seq<char>>, origin: ThemeOrigin)
    ensures
        ({
            let r = add_new_names(entries, names, origin);
            &&& entries.len() <= r.len()
            &&& forall|k: int|
                #![trigger r[k]]
                entries.len() <= k < r.len() ==> exists|i: int| #[trigger] named_at(names, i, r[k].name)
            &&& forall|k1: int, k2: int|
                #![trigger r[k1], r[k2]]
                entries.len() <= k1 < k2 < r.len() ==> exists|i1: int, i2: int|
                    i1 < i2 && #[trigger] named_at(names, i1, r[k1].name) && #[trigger] named_at(names, i2, r[k2].name)
        }),
    decreases names.len(),
{
    if names.len() > 0 {
        let d = names.drop_last();
        lemma_add_new_names_order(entries, d, origin);
        let prev = add_new_names(entries, d, origin);
        let r = add_new_names(entries, names, origin);
        let last = names.len() - 1;
        assert forall|k: int| #![trigger prev[k]] entries.len() <= k < prev.len() implies exists|i: int|
            i < last && #[trigger] named_at(names, i, prev[k].name) by {
            let i = choose|i: int| #[trigger] named_at(d, i, prev[k].name);
            assert(named_at(names, i, prev[k].name));
        }
        assert forall|k: int| #![trigger r[k]] entries.len() <= k < r.len() implies exists|i: int| #[trigger] named_at(names, i, r[k].name) by {
            if k < prev.len() {
                assert(r[k] == prev[k]);
                let i = choose|i: int| i < last && #[trigger] named_at(names, i, prev[k].name);
                assert(named_at(names, i, r[k].name));
            } else {
                assert(named_at(names, last, r[k].name));
            }
        }
        assert forall|k1: int, k2: int| #![trigger r[k1], r[k2]] entries.len() <= k1 < k2 < r.len() implies exists|i1: int, i2: int|
            i1 < i2 && #[trigger] named_at(names, i1, r[k1].name) && #[trigger] named_at(names, i2, r[k2].name) by {
            assert(r[k1] == prev[k1]);
            if k2 < prev.len() {
                assert(r[k2] == prev[k2]);
                let (i1, i2) = choose|i1: int, i2: int|
                    i1 < i2 && #[trigger] named_at(d, i1, prev[k1].name) && #[trigger] named_at(d, i2, prev[k2].name);
                assert(named_at(names, i1, r[k1].name) && named_at(names, i2, r[k2].name));
            } else {
                let i1 = choose|i: int| i < last && #[trigger] named_at(names, i, prev[k1].name);
                assert(named_at(names, i1, r[k1].name) && named_at(names, last, r[k2].name));
            }
        }
    }
}

/// In the picker listing, the sorted group of embedded and custom themes holds no palette,
/// and the palettes after it keep the catalog order.
pub proof fn law_listing_palettes_in_catalog_order(custom_names: Seq<Seq<char>>)
    ensures
        ({
            let group = sort_entries(add_new_names(builtin_entries(), custom_names, ThemeOrigin::Custom));
            let listing = theme_listing(custom_names);
            let palettes = ghostty_names();
            &&& forall|k: int| 0 <= k < group.len() ==> (#[trigger] listing[k]).origin != ThemeOrigin::Ghostty
            &&& forall|k1: int, k2: int|
                #![trigger listing[k1], listing[k2]]
                group.len() <= k1 < k2 < listing.len() ==> exists|i1: int, i2: int|
                    i1 < i2 && #[trigger] named_at(palettes, i1, listing[k1].name) && #[trigger] named_at(
                        palettes,
                        i2,
                        listing[k2].name,
                    )
        }),
{
    lemma_builtin_entries_unique();
    let b = builtin_entries();
    lemma_add_new_names(b, custom_names, ThemeOrigin::Custom);
    let unsorted = add_new_names(b, custom_names, ThemeOrigin::Custom);
    lemma_sort_entries(unsorted);
    let group = sort_entries(unsorted);
    lemma_add_new_names(group, ghostty_names(), ThemeOrigin::Ghostty);
    lemma_add_new_names_order(group, ghostty_names(), ThemeOrigin::Ghostty);
    let listing = theme_listing(custom_names);
    assert forall|k: int| 0 <= k < group.len() implies (#[trigger] listing[k]).origin != ThemeOrigin::Ghostty by {
        assert(listing[k] == group[k]);
        assert(group.contains(group[k]));
        assert(unsorted.contains(group[k]));
        let m = choose|m: int| 0 <= m < unsorted.len() && unsorted[m] == group[k];
        if m < b.len() {
            assert(unsorted[m] == b[m]);
        }
    }
}

} // verus!
