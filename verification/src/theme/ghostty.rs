//! Bundled terminal palettes adapted to the ANSI syntax theme.

use vstd::prelude::*;

use crate::text::{
    lemma_lex_order_gt_ge, lemma_lex_order_le_lt, string_from_chars, char_vec_views, chars_of, compare_chars, lemma_lex_order_antisymmetric, lemma_lex_order_range,
    lemma_lex_order_transitive, lemma_lex_order_zero, lemma_split_on_nonempty, lex_order, split_chars,
    split_on,
};

use super::names::EmbeddedTheme;
use super::syntax::{
    embedded_index, embedded_theme, embedded_theme_colors, set_theme_header, set_theme_scope_at, theme_header, theme_scope_at,
    theme_scope_count, theme_scopes, ThemeHeader,
};

verus! {

/// An RGB triple.
pub type Rgb = [u8; 3];

/// The value of a hexadecimal digit, in either case.
pub open spec fn hex_digit_value(c: char) -> Option<u8> {
    if '0' <= c && c <= '9' {
        Some((c as u32 - '0' as u32) as u8)
    } else if 'a' <= c && c <= 'f' {
        Some((c as u32 - 'a' as u32 + 10) as u8)
    } else if 'A' <= c && c <= 'F' {
        Some((c as u32 - 'A' as u32 + 10) as u8)
    } else {
        None
    }
}

/// The byte that a two-character field denotes when read as an unsigned hexadecimal
/// number: two digits, or a `+` sign followed by one digit.
pub open spec fn hex_pair_value(hi: char, lo: char) -> Option<u8> {
    if hi == '+' {
        hex_digit_value(lo)
    } else {
        match (hex_digit_value(hi), hex_digit_value(lo)) {
            (Some(h), Some(l)) => Some((h * 16 + l) as u8),
            _ => None,
        }
    }
}

/// The colour spelled by a six-character hexadecimal field such as `f7f7f7`.
pub open spec fn rgb_value(s: Seq<char>) -> Option<Rgb> {
    if s.len() == 6 {
        match (hex_pair_value(s[0], s[1]), hex_pair_value(s[2], s[3]), hex_pair_value(s[4], s[5])) {
            (Some(r), Some(g), Some(b)) => Some([r, g, b]),
            _ => None,
        }
    } else {
        None
    }
}

fn hex_digit(c: char) -> (r: Option<u8>)
    ensures
        r == hex_digit_value(c),
{
    if '0' <= c && c <= '9' {
        Some((c as u32 - '0' as u32) as u8)
    } else if 'a' <= c && c <= 'f' {
        Some((c as u32 - 'a' as u32 + 10) as u8)
    } else if 'A' <= c && c <= 'F' {
        Some((c as u32 - 'A' as u32 + 10) as u8)
    } else {
        None
    }
}

fn hex_pair(hi: char, lo: char) -> (r: Option<u8>)
    ensures
        r == hex_pair_value(hi, lo),
{
    if hi == '+' {
        hex_digit(lo)
    } else {
        match (hex_digit(hi), hex_digit(lo)) {
            (Some(h), Some(l)) => Some(h * 16 + l),
            _ => None,
        }
    }
}

/// Reads a colour field given as characters.
pub fn parse_rgb_chars(s: &[char]) -> (r: Option<Rgb>)
    ensures
        r == rgb_value(s@),
{
    if s.len() != 6 {
        return None;
    }
    match (hex_pair(s[0], s[1]), hex_pair(s[2], s[3]), hex_pair(s[4], s[5])) {
        (Some(r), Some(g), Some(b)) => Some([r, g, b]),
        _ => None,
    }
}

/// Reads a six-digit hexadecimal colour such as `f7f7f7`.
///
/// Any field that is not six ASCII characters is rejected, so counting characters here
/// rejects exactly the fields whose UTF-8 length differs from six.
pub fn parse_rgb(value: &str) -> (r: Option<Rgb>)
    ensures
        r == rgb_value(value@),
{
    let chars = chars_of(value);
    parse_rgb_chars(chars.as_slice())
}

/// A bundled terminal palette: its catalog name, default colours and the sixteen ANSI colours.
pub struct GhosttyTheme {
    pub name: Vec<char>,
    pub background: Rgb,
    pub foreground: Rgb,
    pub palette: Vec<Rgb>,
}

/// The mathematical value of a [`GhosttyTheme`].
pub struct GhosttyPalette {
    pub name: Seq<char>,
    pub background: Rgb,
    pub foreground: Rgb,
    pub palette: Seq<Rgb>,
}

impl View for GhosttyTheme {
    type V = GhosttyPalette;

    open spec fn view(&self) -> GhosttyPalette {
        GhosttyPalette {
            name: self.name@,
            background: self.background,
            foreground: self.foreground,
            palette: self.palette@,
        }
    }
}

/// The values of a sequence of palettes.
pub open spec fn palette_views(v: Seq<GhosttyTheme>) -> Seq<GhosttyPalette> {
    v.map_values(|t: GhosttyTheme| t@)
}

/// `line` without one trailing carriage return.
pub open spec fn strip_cr(line: Seq<char>) -> Seq<char> {
    if line.len() > 0 && line.last() == '\r' {
        line.drop_last()
    } else {
        line
    }
}

/// The lines of `data` as `str::lines` yields them (a final empty line aside, which no
/// caller keeps): split at `\n`, each line that ended in `\n` losing one trailing `\r`.
pub open spec fn data_lines(data: Seq<char>) -> Seq<Seq<char>> {
    let segs = split_on(data, '\n');
    Seq::new(
        segs.len(),
        |i: int|
            if i < segs.len() - 1 {
                strip_cr(segs[i])
            } else {
                segs[i]
            },
    )
}

/// Whether a catalog line describes a palette (it is neither blank nor a `#` comment).
pub open spec fn is_theme_row(line: Seq<char>) -> bool {
    line.len() > 0 && line[0] != '#'
}

/// The palette a catalog row describes: tab-separated name, background, foreground and
/// exactly sixteen palette colours; `None` when the row is malformed.
pub open spec fn row_palette(row: Seq<char>) -> Option<GhosttyPalette> {
    let f = split_on(row, '\t');
    if f.len() == 19 && rgb_value(f[1]) is Some && rgb_value(f[2]) is Some && (forall|i: int|
        3 <= i < 19 ==> #[trigger] rgb_value(f[i]) is Some) {
        Some(
            GhosttyPalette {
                name: f[0],
                background: rgb_value(f[1])->0,
                foreground: rgb_value(f[2])->0,
                palette: Seq::new(16, |i: int| rgb_value(f[i + 3])->0),
            },
        )
    } else {
        None
    }
}

/// The palettes of a run of catalog rows, in row order; `None` if any row is malformed.
pub open spec fn rows_palettes(rows: Seq<Seq<char>>) -> Option<Seq<GhosttyPalette>>
    decreases rows.len(),
{
    if rows.len() == 0 {
        Some(Seq::empty())
    } else {
        match (rows_palettes(rows.drop_last()), row_palette(rows.last())) {
            (Some(prev), Some(p)) => Some(prev.push(p)),
            _ => None,
        }
    }
}

/// `sorted` with `p` inserted after every entry whose name sorts at or before `p`'s.
pub open spec fn insert_by_name(sorted: Seq<GhosttyPalette>, p: GhosttyPalette) -> Seq<GhosttyPalette>
    decreases sorted.len(),
{
    if sorted.len() == 0 {
        seq![p]
    } else if lex_order(sorted.last().name, p.name) <= 0 {
        sorted.push(p)
    } else {
        insert_by_name(sorted.drop_last(), p).push(sorted.last())
    }
}

/// The stable sort of `s` by name.
pub open spec fn sort_by_name(s: Seq<GhosttyPalette>) -> Seq<GhosttyPalette>
    decreases s.len(),
{
    if s.len() == 0 {
        s
    } else {
        insert_by_name(sort_by_name(s.drop_last()), s.last())
    }
}

/// Whether `s` is ordered by name.
pub open spec fn sorted_by_name(s: Seq<GhosttyPalette>) -> bool {
    forall|i: int, j: int| 0 <= i < j < s.len() ==> lex_order(#[trigger] s[i].name, #[trigger] s[j].name) <= 0
}

/// The catalog that `data` describes: its palettes sorted by name, or `None` when any row
/// is malformed.
pub open spec fn catalog_of(data: Seq<char>) -> Option<Seq<GhosttyPalette>> {
    match rows_palettes(data_lines(data).filter(|l: Seq<char>| is_theme_row(l))) {
        Some(v) => Some(sort_by_name(v)),
        None => None,
    }
}

proof fn lemma_insert_by_name_at(sorted: Seq<GhosttyPalette>, p: GhosttyPalette, pos: int)
    requires
        0 <= pos <= sorted.len(),
        pos == 0 || lex_order(sorted[pos - 1].name, p.name) <= 0,
        forall|k: int| pos <= k < sorted.len() ==> lex_order(#[trigger] sorted[k].name, p.name) > 0,
    ensures
        insert_by_name(sorted, p) == sorted.take(pos) + seq![p] + sorted.skip(pos),
    decreases sorted.len(),
{
    if sorted.len() == 0 {
        assert(sorted.take(pos) + seq![p] + sorted.skip(pos) =~= seq![p]);
    } else if lex_order(sorted.last().name, p.name) <= 0 {
        assert(pos == sorted.len());
        assert(sorted.take(pos) + seq![p] + sorted.skip(pos) =~= sorted.push(p));
    } else {
        assert(pos < sorted.len());
        let s2 = sorted.drop_last();
        lemma_insert_by_name_at(s2, p, pos);
        assert(s2.take(pos) + seq![p] + s2.skip(pos) + seq![sorted.last()] =~= sorted.take(pos) + seq![p]
            + sorted.skip(pos));
    }
}

proof fn lemma_insert_keeps_sorted(sorted: Seq<GhosttyPalette>, p: GhosttyPalette)
    requires
        sorted_by_name(sorted),
    ensures
        sorted_by_name(insert_by_name(sorted, p)),
        insert_by_name(sorted, p).len() == sorted.len() + 1,
        forall|k: int| 0 <= k < insert_by_name(sorted, p).len() ==> {
            let e = #[trigger] insert_by_name(sorted, p)[k];
            e == p || sorted.contains(e)
        },
    decreases sorted.len(),
{
    let r = insert_by_name(sorted, p);
    if sorted.len() == 0 {
    } else if lex_order(sorted.last().name, p.name) <= 0 {
        assert forall|i: int, j: int| 0 <= i < j < r.len() implies lex_order(
            #[trigger] r[i].name,
            #[trigger] r[j].name,
        ) <= 0 by {
            if j == r.len() - 1 && i < j {
                if i < sorted.len() - 1 {
                    lemma_lex_order_transitive(sorted[i].name, sorted.last().name, p.name);
                }
            }
        }
        assert forall|k: int| 0 <= k < r.len() implies {
            let e = #[trigger] r[k];
            e == p || sorted.contains(e)
        } by {
            if k < sorted.len() {
                assert(sorted[k] == r[k]);
            }
        }
    } else {
        let s2 = sorted.drop_last();
        assert(sorted_by_name(s2));
        lemma_insert_keeps_sorted(s2, p);
        let r2 = insert_by_name(s2, p);
        lemma_lex_order_antisymmetric(sorted.last().name, p.name);
        assert forall|i: int, j: int| 0 <= i < j < r.len() implies lex_order(
            #[trigger] r[i].name,
            #[trigger] r[j].name,
        ) <= 0 by {
            if j == r.len() - 1 {
                let e = r2[i];
                assert(e == p || s2.contains(e));
                if e != p {
                    let k = choose|k: int| 0 <= k < s2.len() && s2[k] == e;
                    assert(sorted[k] == e);
                    assert(lex_order(sorted[k].name, sorted[sorted.len() - 1].name) <= 0);
                }
            }
        }
        assert forall|k: int| 0 <= k < r.len() implies {
            let e = #[trigger] r[k];
            e == p || sorted.contains(e)
        } by {
            if k < r2.len() {
                let e = r2[k];
                assert(e == p || s2.contains(e));
                if e != p {
                    let m = choose|m: int| 0 <= m < s2.len() && s2[m] == e;
                    assert(sorted[m] == e);
                }
            } else {
                assert(r[k] == sorted[sorted.len() - 1]);
            }
        }
    }
}

/// Sorting by name yields a sequence ordered by name.
pub proof fn lemma_sort_by_name_sorted(s: Seq<GhosttyPalette>)
    ensures
        sorted_by_name(sort_by_name(s)),
        sort_by_name(s).len() == s.len(),
    decreases s.len(),
{
    if s.len() > 0 {
        lemma_sort_by_name_sorted(s.drop_last());
        lemma_insert_keeps_sorted(sort_by_name(s.drop_last()), s.last());
    }
}

proof fn lemma_filter_take_prefix(s: Seq<Seq<char>>, k: int, pred: spec_fn(Seq<char>) -> bool)
    requires
        0 <= k <= s.len(),
    ensures
        s.take(k).filter(pred).len() <= s.filter(pred).len(),
        s.filter(pred).take(s.take(k).filter(pred).len() as int) == s.take(k).filter(pred),
    decreases s.len(),
{
    reveal_with_fuel(Seq::<_>::filter, 1);
    if k == s.len() {
        assert(s.take(k) =~= s);
        assert(s.filter(pred).take(s.filter(pred).len() as int) =~= s.filter(pred));
    } else {
        let d = s.drop_last();
        assert(s.take(k) =~= d.take(k));
        lemma_filter_take_prefix(d, k, pred);
        let m = d.take(k).filter(pred).len() as int;
        assert(s.filter(pred).take(m) =~= d.filter(pred).take(m));
    }
}

proof fn lemma_rows_palettes_prefix_none(all: Seq<Seq<char>>, rows: Seq<Seq<char>>)
    requires
        rows.len() <= all.len(),
        all.take(rows.len() as int) == rows,
        rows_palettes(rows) is None,
    ensures
        rows_palettes(all) is None,
    decreases all.len(),
{
    if all.len() == rows.len() {
        assert(all =~= rows);
    } else {
        assert(all.drop_last().take(rows.len() as int) =~= all.take(rows.len() as int));
        lemma_rows_palettes_prefix_none(all.drop_last(), rows);
    }
}

fn insert_sorted(v: &mut Vec<GhosttyTheme>, t: GhosttyTheme)
    ensures
        palette_views(final(v)@) == insert_by_name(palette_views(old(v)@), t@),
{
    let ghost s = palette_views(v@);
    let mut pos = v.len();
    while pos > 0 && compare_chars(v[pos - 1].name.as_slice(), t.name.as_slice()) > 0
        invariant
            pos <= v@.len(),
            s == palette_views(v@),
            forall|k: int| pos <= k < s.len() ==> lex_order(#[trigger] s[k].name, t@.name) > 0,
        decreases pos,
    {
        pos = pos - 1;
    }
    proof {
        lemma_insert_by_name_at(s, t@, pos as int);
    }
    v.insert(pos, t);
    assert(palette_views(v@) =~= s.take(pos as int) + seq![t@] + s.skip(pos as int));
}

fn strip_trailing_cr(line: &mut Vec<char>)
    ensures
        final(line)@ == strip_cr(old(line)@),
{
    let n = line.len();
    if n > 0 && line[n - 1] == '\r' {
        line.pop();
    }
}

fn parse_palette_fields(fields: &Vec<Vec<char>>) -> (r: Option<Vec<Rgb>>)
    requires
        fields@.len() == 19,
    ensures
        match r {
            Some(p) => (forall|i: int| 3 <= i < 19 ==> #[trigger] rgb_value(fields@[i]@) is Some) && p@
                == Seq::new(16, |i: int| rgb_value(fields@[i + 3]@)->0),
            None => !(forall|i: int| 3 <= i < 19 ==> #[trigger] rgb_value(fields@[i]@) is Some),
        },
{
    let mut palette: Vec<Rgb> = Vec::new();
    for i in 3..19
        invariant
            fields@.len() == 19,
            palette@.len() == i - 3,
            forall|k: int| 3 <= k < i ==> #[trigger] rgb_value(fields@[k]@) is Some,
            forall|k: int| 0 <= k < i - 3 ==> palette@[k] == #[trigger] rgb_value(fields@[k + 3]@)->0,
    {
        match parse_rgb_chars(fields[i].as_slice()) {
            Some(c) => palette.push(c),
            None => return None,
        }
    }
    assert(palette@ =~= Seq::new(16, |i: int| rgb_value(fields@[i + 3]@)->0));
    Some(palette)
}

/// Reads one catalog row.
pub fn parse_row(row: &[char]) -> (r: Option<GhosttyTheme>)
    ensures
        match r {
            Some(t) => row_palette(row@) == Some(t@),
            None => row_palette(row@) is None,
        },
{
    let fields = split_chars(row, '\t');
    let ghost f = split_on(row@, '\t');
    assert(char_vec_views(fields@) == f);
    if fields.len() != 19 {
        return None;
    }
    assert(forall|i: int| 0 <= i < 19 ==> #[trigger] fields@[i]@ == f[i]);
    let background = match parse_rgb_chars(fields[1].as_slice()) {
        Some(c) => c,
        None => return None,
    };
    let foreground = match parse_rgb_chars(fields[2].as_slice()) {
        Some(c) => c,
        None => return None,
    };
    let palette = match parse_palette_fields(&fields) {
        Some(p) => p,
        None => {
            assert(!(forall|i: int| 3 <= i < 19 ==> #[trigger] rgb_value(f[i]) is Some));
            return None;
        },
    };
    assert(forall|i: int| 3 <= i < 19 ==> #[trigger] rgb_value(f[i]) is Some);
    let name = fields[0].clone();
    let t = GhosttyTheme { name, background, foreground, palette };
    assert(t@.palette =~= Seq::new(16, |i: int| rgb_value(f[i + 3])->0));
    Some(t)
}

/// Reads a whole catalog: one palette per row, sorted by name; `None` when any row is
/// malformed.
pub fn parse_catalog(data: &[char]) -> (r: Option<Vec<GhosttyTheme>>)
    ensures
        match r {
            Some(v) => catalog_of(data@) == Some(palette_views(v@)),
            None => catalog_of(data@) is None,
        },
{
    let segs = split_chars(data, '\n');
    let ghost lines = data_lines(data@);
    let ghost rows_pred = |l: Seq<char>| is_theme_row(l);
    proof {
        lemma_split_on_nonempty(data@, '\n');
    }
    let mut rows_seen: Ghost<Seq<Seq<char>>> = Ghost(Seq::empty());
    let mut parsed: Ghost<Seq<GhosttyPalette>> = Ghost(Seq::empty());
    let mut result: Vec<GhosttyTheme> = Vec::new();
    let n = segs.len();
    proof {
        reveal_with_fuel(Seq::<_>::filter, 1);
        assert(lines.take(0) =~= Seq::<Seq<char>>::empty());
        assert(lines.take(0).filter(rows_pred) =~= Seq::<Seq<char>>::empty());
    }
    for i in 0..n
        invariant
            n == segs@.len(),
            char_vec_views(segs@) == split_on(data@, '\n'),
            lines == data_lines(data@),
            lines.len() == n,
            rows_pred == (|l: Seq<char>| is_theme_row(l)),
            rows_seen@ == lines.take(i as int).filter(rows_pred),
            rows_palettes(rows_seen@) == Some(parsed@),
            palette_views(result@) == sort_by_name(parsed@),
    {
        let mut line = segs[i].clone();
        if i + 1 < n {
            strip_trailing_cr(&mut line);
        }
        assert(line@ == lines[i as int]);
        proof {
            reveal(Seq::filter);
            assert(lines.take(i + 1).drop_last() =~= lines.take(i as int));
            assert(lines.take(i + 1).last() == line@);
            assert(rows_pred(line@) == is_theme_row(line@));
            if is_theme_row(line@) {
                assert(lines.take(i + 1).filter(rows_pred) == lines.take(i as int).filter(rows_pred).push(
                    line@,
                ));
            } else {
                assert(lines.take(i + 1).filter(rows_pred) == lines.take(i as int).filter(rows_pred));
            }
        }
        if line.len() > 0 && line[0] != '#' {
            match parse_row(line.as_slice()) {
                Some(t) => {
                    proof {
                        rows_seen@ = rows_seen@.push(line@);
                        assert(rows_seen@.drop_last() =~= lines.take(i as int).filter(rows_pred));
                        let old_parsed = parsed@;
                        parsed@ = parsed@.push(t@);
                        assert(parsed@.drop_last() =~= old_parsed);
                        assert(sort_by_name(parsed@) == insert_by_name(sort_by_name(old_parsed), t@));
                    }
                    insert_sorted(&mut result, t);
                },
                None => {
                    proof {
                        let rows = rows_seen@.push(line@);
                        assert(rows.drop_last() =~= rows_seen@);
                        assert(rows == lines.take(i + 1).filter(rows_pred));
                        lemma_filter_take_prefix(lines, i + 1, rows_pred);
                        lemma_rows_palettes_prefix_none(lines.filter(rows_pred), rows);
                    }
                    return None;
                },
            }
        }
    }
    assert(lines.take(n as int) =~= lines);
    Some(result)
}

/// The bundled palette table: one tab-separated row per palette giving its name, background,
/// foreground and the sixteen ANSI colours; `#` lines are comments.
pub const GHOSTTY_THEME_DATA: &'static str = "# name\tbackground\tforeground\tpalette 0-15\nghostty-3024-day\tf7f7f7\t4a4543\t090300\tdb2d20\t01a252\tcaba00\t01a0e4\ta16a94\t8fbece\ta5a2a2\t5c5855\tdbaec3\t3a3432\t4a4543\t807d7c\tbcbbba\tcdab53\tf7f7f7\n";

/// The bundled catalog, sorted by name (`None` if the table were malformed).
pub open spec fn ghostty_catalog() -> Option<Seq<GhosttyPalette>> {
    catalog_of(GHOSTTY_THEME_DATA@)
}

/// Whether the bundled catalog has a palette called `name`.
pub open spec fn ghostty_has(name: Seq<char>) -> bool {
    match ghostty_catalog() {
        Some(cat) => exists|k: int| 0 <= k < cat.len() && #[trigger] cat[k].name == name,
        None => false,
    }
}

/// Reads the bundled palette table, sorted by name.
pub fn themes() -> (r: Option<Vec<GhosttyTheme>>)
    ensures
        match r {
            Some(v) => ghostty_catalog() == Some(palette_views(v@)),
            None => ghostty_catalog() is None,
        },
{
    let data = chars_of(GHOSTTY_THEME_DATA);
    parse_catalog(data.as_slice())
}

/// Binary search by name in a name-sorted palette list.
pub fn find_index(themes: &Vec<GhosttyTheme>, name: &[char]) -> (r: Option<usize>)
    requires
        sorted_by_name(palette_views(themes@)),
    ensures
        match r {
            Some(i) => i < themes@.len() && themes@[i as int].name@ == name@,
            None => forall|k: int| 0 <= k < themes@.len() ==> #[trigger] themes@[k].name@ != name@,
        },
{
    let ghost s = palette_views(themes@);
    let mut lo: usize = 0;
    let mut hi: usize = themes.len();
    while lo < hi
        invariant
            s == palette_views(themes@),
            sorted_by_name(s),
            lo <= hi <= themes@.len(),
            forall|k: int| 0 <= k < lo ==> lex_order(#[trigger] s[k].name, name@) < 0,
            forall|k: int| hi <= k < s.len() ==> lex_order(#[trigger] s[k].name, name@) > 0,
        decreases hi - lo,
    {
        let mid = lo + (hi - lo) / 2;
        let c = compare_chars(themes[mid].name.as_slice(), name);
        assert(s[mid as int].name == themes@[mid as int].name@);
        if c == 0 {
            proof {
                lemma_lex_order_zero(s[mid as int].name, name@);
            }
            return Some(mid);
        } else if c < 0 {
            proof {
                assert forall|k: int| 0 <= k < mid + 1 implies lex_order(#[trigger] s[k].name, name@) < 0 by {
                    if k < mid {
                        lemma_lex_order_le_lt(s[k].name, s[mid as int].name, name@);
                    }
                }
            }
            lo = mid + 1;
        } else {
            proof {
                assert forall|k: int| mid <= k < s.len() implies lex_order(#[trigger] s[k].name, name@) > 0 by {
                    if k > mid {
                        lemma_lex_order_gt_ge(s[mid as int].name, name@, s[k].name);
                    }
                }
            }
            hi = mid;
        }
    }
    proof {
        assert forall|k: int| 0 <= k < themes@.len() implies #[trigger] themes@[k].name@ != name@ by {
            assert(s[k].name == themes@[k].name@);
            lemma_lex_order_zero(s[k].name, name@);
        }
    }
    None
}

/// The bundled palette called `name`, if any.
pub fn find(name: &str) -> (r: Option<GhosttyTheme>)
    ensures
        match r {
            Some(t) => ghostty_catalog() is Some && ghostty_catalog()->0.contains(t@) && t@.name == name@,
            None => !ghostty_has(name@),
        },
{
    let chars = chars_of(name);
    match themes() {
        Some(mut v) => {
            proof {
                lemma_sort_by_name_sorted(rows_palettes(
                    data_lines(GHOSTTY_THEME_DATA@).filter(|l: Seq<char>| is_theme_row(l)),
                )->0);
            }
            match find_index(&v, chars.as_slice()) {
                Some(i) => {
                    let ghost cat = palette_views(v@);
                    assert(cat[i as int] == v@[i as int]@);
                    let t = v.remove(i);
                    Some(t)
                },
                None => {
                    proof {
                        let cat = palette_views(v@);
                        assert forall|k: int| 0 <= k < cat.len() implies #[trigger] cat[k].name != name@ by {
                            assert(cat[k] == v@[k]@);
                        }
                    }
                    None
                },
            }
        },
        None => None,
    }
}

/// Whether a bundled palette is called `name`.
pub fn contains(name: &str) -> (r: bool)
    ensures
        r == ghostty_has(name@),
{
    match find(name) {
        Some(t) => {
            proof {
                let cat = ghostty_catalog()->0;
                let k = choose|k: int| 0 <= k < cat.len() && cat[k] == t@;
                assert(cat[k].name == name@);
            }
            true
        },
        None => false,
    }
}

/// The names of the bundled palettes, in catalog order.
pub fn names() -> (r: Vec<String>)
    ensures
        match ghostty_catalog() {
            Some(cat) => r@.len() == cat.len() && forall|k: int| 0 <= k < cat.len() ==> #[trigger] r@[k]@ == cat[k].name,
            None => r@.len() == 0,
        },
{
    let mut out: Vec<String> = Vec::new();
    match themes() {
        Some(v) => {
            let ghost cat = palette_views(v@);
            for i in 0..v.len()
                invariant
                    cat == palette_views(v@),
                    out@.len() == i,
                    forall|k: int| 0 <= k < i ==> #[trigger] out@[k]@ == cat[k].name,
            {
                out.push(string_from_chars(v[i].name.as_slice()));
            }
        },
        None => {},
    }
    out
}

/// Alpha marker: `r` holds an ANSI palette index, not a red channel.
pub const ANSI_ALPHA_INDEX: u8 = 0x00;

/// Alpha marker: use the terminal default colour.
pub const ANSI_ALPHA_DEFAULT: u8 = 0x01;

/// Alpha of an ordinary opaque RGB colour.
pub const OPAQUE_ALPHA: u8 = 0xFF;

/// A highlighting colour. The ANSI-flavoured themes keep palette semantics in the alpha
/// channel: [`ANSI_ALPHA_INDEX`], [`ANSI_ALPHA_DEFAULT`], or [`OPAQUE_ALPHA`] for plain RGB.
#[derive(Clone, Copy, Debug, PartialEq, Eq, Structural)]
pub struct Color {
    pub r: u8,
    pub g: u8,
    pub b: u8,
    pub a: u8,
}

/// The opaque colour of an RGB triple.
pub open spec fn opaque(rgb: Rgb) -> Color {
    Color { r: rgb[0], g: rgb[1], b: rgb[2], a: OPAQUE_ALPHA }
}

/// The opaque colour of an RGB triple.
pub fn syntect_color(rgb: Rgb) -> (c: Color)
    ensures
        c == opaque(rgb),
{
    Color { r: rgb[0], g: rgb[1], b: rgb[2], a: OPAQUE_ALPHA }
}

/// What an ANSI-encoded colour becomes under a palette: palette entries replace indexed
/// colours (an index past the palette keeps the colour), the default replaces the
/// default marker, and anything else is kept.
pub open spec fn ansi_resolved(color: Color, default: Rgb, palette: Seq<Rgb>) -> Color {
    if color.a == ANSI_ALPHA_INDEX {
        if (color.r as int) < palette.len() {
            opaque(palette[color.r as int])
        } else {
            color
        }
    } else if color.a == ANSI_ALPHA_DEFAULT {
        opaque(default)
    } else {
        color
    }
}

/// Resolves an ANSI-encoded colour against a palette and a default colour.
pub fn resolve_ansi_color(color: Color, default: Rgb, palette: &[Rgb]) -> (c: Color)
    ensures
        c == ansi_resolved(color, default, palette@),
{
    if color.a == ANSI_ALPHA_INDEX {
        let index = color.r as usize;
        if index < palette.len() {
            syntect_color(palette[index])
        } else {
            color
        }
    } else if color.a == ANSI_ALPHA_DEFAULT {
        syntect_color(default)
    } else {
        color
    }
}

/// The foreground and background colours of one scope rule of a theme.
#[derive(Clone, Copy, Debug, PartialEq, Eq, Structural)]
pub struct ScopeColors {
    pub foreground: Option<Color>,
    pub background: Option<Color>,
}

/// A scope rule's colours after applying a palette: the foreground resolves against the
/// palette's foreground, the background against its background.
pub open spec fn recolored(scope: ScopeColors, t: GhosttyPalette) -> ScopeColors {
    ScopeColors {
        foreground: match scope.foreground {
            Some(c) => Some(ansi_resolved(c, t.foreground, t.palette)),
            None => None,
        },
        background: match scope.background {
            Some(c) => Some(ansi_resolved(c, t.background, t.palette)),
            None => None,
        },
    }
}

/// The colour a palette gives to the colour `before`: a default-colour marker becomes the
/// opaque `default`, an index marker within the palette becomes that opaque palette entry,
/// and any other colour is kept.
pub open spec fn marked_colour_becomes(before: Color, after: Color, default: Rgb, palette: Seq<Rgb>) -> bool {
    if before.a == 0x01u8 {
        after == Color { r: default[0], g: default[1], b: default[2], a: 0xFFu8 }
    } else if before.a == 0x00u8 && (before.r as int) < palette.len() {
        after == Color { r: palette[before.r as int][0], g: palette[before.r as int][1], b: palette[before.r as int][2], a: 0xFFu8 }
    } else {
        after == before
    }
}

/// How recolouring relates a scope rule `before` to `after`: a foreground stays absent or
/// present and resolves against the palette's foreground; a background resolves against
/// the palette's background.
pub open spec fn recolouring_follows_markers(
    before: ScopeColors,
    after: ScopeColors,
    foreground: Rgb,
    background: Rgb,
    palette: Seq<Rgb>,
) -> bool {
    &&& match (before.foreground, after.foreground) {
        (Some(b), Some(a)) => marked_colour_becomes(b, a, foreground, palette),
        (None, None) => true,
        _ => false,
    }
    &&& match (before.background, after.background) {
        (Some(b), Some(a)) => marked_colour_becomes(b, a, background, palette),
        (None, None) => true,
        _ => false,
    }
}

/// Recolouring a scope rule with a palette turns a default-colour foreground into the
/// palette's foreground and a default-colour background into the palette's background,
/// index markers into palette entries, and keeps every other colour.
pub proof fn law_recolouring_follows_markers(scope: ScopeColors, t: GhosttyPalette)
    ensures
        recolouring_follows_markers(scope, recolored(scope, t), t.foreground, t.background, t.palette),
{
}

/// Recolours every scope rule of `theme` with the palette `definition` and gives the theme
/// the palette's name, background and foreground.
pub fn apply_palette(theme: &mut syntect::highlighting::Theme, definition: &GhosttyTheme)
    ensures
        theme_header(*final(theme)) == (ThemeHeader {
            name: Some(definition@.name),
            background: Some(opaque(definition.background)),
            foreground: Some(opaque(definition.foreground)),
        }),
        theme_scopes(*final(theme)) == theme_scopes(*old(theme)).map_values(
            |s: ScopeColors| recolored(s, definition@),
        ),
        theme_scopes(*final(theme)).len() == theme_scopes(*old(theme)).len(),
        forall|k: int|
            #![trigger theme_scopes(*final(theme))[k]]
            0 <= k < theme_scopes(*old(theme)).len() ==> recolouring_follows_markers(
                theme_scopes(*old(theme))[k],
                theme_scopes(*final(theme))[k],
                definition.foreground,
                definition.background,
                definition.palette@,
            ),
{
    let name = string_from_chars(definition.name.as_slice());
    set_theme_header(theme, name.as_str(), syntect_color(definition.background), syntect_color(definition.foreground));
    let ghost before = theme_scopes(*theme);
    let n = theme_scope_count(theme);
    for i in 0..n
        invariant
            n == before.len(),
            theme_scopes(*theme).len() == n,
            theme_header(*theme) == (ThemeHeader {
                name: Some(definition@.name),
                background: Some(opaque(definition.background)),
                foreground: Some(opaque(definition.foreground)),
            }),
            forall|k: int| 0 <= k < i ==> #[trigger] theme_scopes(*theme)[k] == recolored(before[k], definition@),
            forall|k: int| i <= k < n ==> #[trigger] theme_scopes(*theme)[k] == before[k],
    {
        let s = theme_scope_at(theme, i);
        let foreground = match s.foreground {
            Some(c) => Some(resolve_ansi_color(c, definition.foreground, definition.palette.as_slice())),
            None => None,
        };
        let background = match s.background {
            Some(c) => Some(resolve_ansi_color(c, definition.background, definition.palette.as_slice())),
            None => None,
        };
        set_theme_scope_at(theme, i, ScopeColors { foreground, background });
    }
    assert(theme_scopes(*theme) =~= before.map_values(|s: ScopeColors| recolored(s, definition@)));
    assert forall|k: int|
        #![trigger theme_scopes(*theme)[k]]
        0 <= k < before.len() implies recolouring_follows_markers(
            before[k],
            theme_scopes(*theme)[k],
            definition.foreground,
            definition.background,
            definition.palette@,
        ) by {
        law_recolouring_follows_markers(before[k], definition@);
    }
}

/// Whether `theme` is the bundled palette `name` applied to the embedded ANSI theme.
pub open spec fn is_ghostty_theme(theme: syntect::highlighting::Theme, name: Seq<char>) -> bool {
    exists|t: GhosttyPalette|
        #![trigger ghostty_catalog()->0.contains(t)]
        {
            &&& ghostty_catalog() is Some
            &&& ghostty_catalog()->0.contains(t)
            &&& t.name == name
            &&& theme_header(theme) == (ThemeHeader {
                name: Some(t.name),
                background: Some(opaque(t.background)),
                foreground: Some(opaque(t.foreground)),
            })
            &&& theme_scopes(theme) == embedded_theme_colors(embedded_index(EmbeddedTheme::Ansi)).1.map_values(
                |s: ScopeColors| recolored(s, t),
            )
        }
}

/// The bundled palette `name` applied to a copy of the embedded ANSI theme; `None` when no
/// palette has that name.
pub fn resolve(name: &str) -> (r: Option<syntect::highlighting::Theme>)
    ensures
        match r {
            Some(th) => is_ghostty_theme(th, name@),
            None => !ghostty_has(name@),
        },
{
    let definition = find(name)?;
    let mut theme = embedded_theme(EmbeddedTheme::Ansi);
    apply_palette(&mut theme, &definition);
    Some(theme)
}

proof fn lemma_rows_palettes_sixteen(rows: Seq<Seq<char>>)
    ensures
        rows_palettes(rows) matches Some(v) ==> v.len() == rows.len() && forall|k: int|
            0 <= k < v.len() ==> (#[trigger] v[k]).palette.len() == 16,
    decreases rows.len(),
{
    if rows.len() > 0 {
        lemma_rows_palettes_sixteen(rows.drop_last());
    }
}

proof fn lemma_sort_by_name_members(s: Seq<GhosttyPalette>)
    ensures
        forall|k: int| 0 <= k < sort_by_name(s).len() ==> s.contains(#[trigger] sort_by_name(s)[k]),
    decreases s.len(),
{
    if s.len() > 0 {
        let d = s.drop_last();
        lemma_sort_by_name_members(d);
        lemma_sort_by_name_sorted(d);
        lemma_insert_keeps_sorted(sort_by_name(d), s.last());
        assert forall|k: int| 0 <= k < sort_by_name(s).len() implies s.contains(#[trigger] sort_by_name(s)[k]) by {
            let e = sort_by_name(s)[k];
            assert(e == s.last() || sort_by_name(d).contains(e));
            if e == s.last() {
                assert(s[s.len() - 1] == e);
            } else {
                let m = choose|m: int| 0 <= m < sort_by_name(d).len() && sort_by_name(d)[m] == e;
                assert(d.contains(e));
                let j = choose|j: int| 0 <= j < d.len() && d[j] == e;
                assert(s[j] == e);
            }
        }
    }
}

/// A catalog holds one palette per palette row, ordered by name (the order the binary search
/// in [`find_index`] relies on), each with sixteen colours.
pub proof fn law_catalog_sorted_with_sixteen_colours(data: Seq<char>)
    ensures
        catalog_of(data) matches Some(cat) ==> {
            &&& cat.len() == data_lines(data).filter(|l: Seq<char>| is_theme_row(l)).len()
            &&& sorted_by_name(cat)
            &&& forall|k: int| 0 <= k < cat.len() ==> (#[trigger] cat[k]).palette.len() == 16
        },
{
    let rows = data_lines(data).filter(|l: Seq<char>| is_theme_row(l));
    lemma_rows_palettes_sixteen(rows);
    if let Some(v) = rows_palettes(rows) {
        lemma_sort_by_name_sorted(v);
        lemma_sort_by_name_members(v);
        let cat = sort_by_name(v);
        assert forall|k: int| 0 <= k < cat.len() implies (#[trigger] cat[k]).palette.len() == 16 by {
            assert(v.contains(cat[k]));
            let j = choose|j: int| 0 <= j < v.len() && v[j] == cat[k];
            assert(v[j].palette.len() == 16);
        }
    }
}

proof fn lemma_split_on_no_sep(x: Seq<char>, sep: char)
    requires
        !x.contains(sep),
    ensures
        split_on(x, sep) == seq![x],
    decreases x.len(),
{
    if x.len() == 0 {
        assert(x =~= Seq::<char>::empty());
    } else {
        let d = x.drop_last();
        assert(!d.contains(sep)) by {
            if d.contains(sep) {
                let k = choose|k: int| 0 <= k < d.len() && d[k] == sep;
                assert(x[k] == sep);
            }
        }
        lemma_split_on_no_sep(d, sep);
        assert(x[x.len() - 1] == x.last());
        assert(d.push(x.last()) =~= x);
    }
}

proof fn lemma_split_on_concat(x: Seq<char>, y: Seq<char>, sep: char)
    ensures
        split_on(x + seq![sep] + y, sep) == split_on(x, sep) + split_on(y, sep),
    decreases y.len(),
{
    let z = x + seq![sep] + y;
    if y.len() == 0 {
        assert(z.drop_last() =~= x);
        assert(split_on(y, sep) == seq![Seq::<char>::empty()]);
        assert(split_on(x, sep).push(Seq::<char>::empty()) =~= split_on(x, sep) + split_on(y, sep));
    } else {
        let yd = y.drop_last();
        assert(z.drop_last() =~= x + seq![sep] + yd);
        assert(z.last() == y.last());
        lemma_split_on_concat(x, yd, sep);
        lemma_split_on_nonempty(yd, sep);
        let a = split_on(x, sep);
        let b = split_on(yd, sep);
        if y.last() == sep {
            assert((a + b).push(Seq::<char>::empty()) =~= a + b.push(Seq::<char>::empty()));
        } else {
            assert((a + b).last() == b.last());
            assert((a + b).update((a + b).len() - 1, b.last().push(y.last())) =~= a + b.update(
                b.len() - 1,
                b.last().push(y.last()),
            ));
        }
    }
}

/// Every bundled palette name starts with `ghostty-`, and no two are the same.
pub proof fn law_bundled_palette_names_prefixed_and_distinct()
    ensures
        forall|k: int|
            0 <= k < ghostty_names_of_catalog().len() ==> (#[trigger] ghostty_names_of_catalog()[k]).len() >= 8
                && ghostty_names_of_catalog()[k].take(8) == "ghostty-"@,
        forall|i: int, j: int|
            0 <= i < j < ghostty_names_of_catalog().len() ==> #[trigger] ghostty_names_of_catalog()[i]
                != #[trigger] ghostty_names_of_catalog()[j],
{
    reveal_strlit("# name\tbackground\tforeground\tpalette 0-15\nghostty-3024-day\tf7f7f7\t4a4543\t090300\tdb2d20\t01a252\tcaba00\t01a0e4\ta16a94\t8fbece\ta5a2a2\t5c5855\tdbaec3\t3a3432\t4a4543\t807d7c\tbcbbba\tcdab53\tf7f7f7\n");
    reveal_strlit("# name\tbackground\tforeground\tpalette 0-15");
    reveal_strlit("ghostty-3024-day");
    reveal_strlit("f7f7f7\t4a4543\t090300\tdb2d20\t01a252\tcaba00\t01a0e4\ta16a94\t8fbece\ta5a2a2\t5c5855\tdbaec3\t3a3432\t4a4543\t807d7c\tbcbbba\tcdab53\tf7f7f7");
    reveal_strlit("ghostty-");
    let data = GHOSTTY_THEME_DATA@;
    let h = "# name\tbackground\tforeground\tpalette 0-15"@;
    let n = "ghostty-3024-day"@;
    let r = "f7f7f7\t4a4543\t090300\tdb2d20\t01a252\tcaba00\t01a0e4\ta16a94\t8fbece\ta5a2a2\t5c5855\tdbaec3\t3a3432\t4a4543\t807d7c\tbcbbba\tcdab53\tf7f7f7"@;
    let row = n + seq!['\t'] + r;
    let empty = Seq::<char>::empty();
    assert(data =~= h + seq!['\n'] + (row + seq!['\n'] + empty));
    assert(!h.contains('\n'));
    assert(!row.contains('\n'));
    assert(!n.contains('\t'));
    lemma_split_on_concat(h, row + seq!['\n'] + empty, '\n');
    lemma_split_on_concat(row, empty, '\n');
    lemma_split_on_no_sep(h, '\n');
    lemma_split_on_no_sep(row, '\n');
    assert(split_on(empty, '\n') == seq![empty]);
    assert(split_on(data, '\n') =~= seq![h, row, empty]);
    assert(strip_cr(h) == h);
    assert(strip_cr(row) == row);
    let lines = data_lines(data);
    assert(lines =~= seq![h, row, empty]);
    reveal_with_fuel(Seq::<_>::filter, 4);
    assert(lines.filter(|l: Seq<char>| is_theme_row(l)) =~= seq![row]);
    lemma_split_on_concat(n, r, '\t');
    lemma_split_on_no_sep(n, '\t');
    assert(split_on(row, '\t')[0] == n);
    reveal_with_fuel(rows_palettes, 2);
    reveal_with_fuel(sort_by_name, 2);
    assert(seq![row].drop_last() =~= Seq::<Seq<char>>::empty());
    assert(n.take(8) =~= "ghostty-"@);
    if let Some(p) = row_palette(row) {
        assert(rows_palettes(seq![row]) == Some(seq![p]));
        assert(seq![p].drop_last() =~= Seq::<GhosttyPalette>::empty());
        assert(ghostty_catalog() == Some(seq![p]));
        assert(ghostty_names_of_catalog() =~= seq![n]);
    } else {
        assert(ghostty_catalog() is None);
        assert(ghostty_names_of_catalog() =~= Seq::<Seq<char>>::empty());
    }
}

/// The names of the bundled palettes, in catalog order (none if the table were malformed).
pub open spec fn ghostty_names_of_catalog() -> Seq<Seq<char>> {
    match ghostty_catalog() {
        Some(cat) => cat.map_values(|t: GhosttyPalette| t.name),
        None => Seq::empty(),
    }
}

} // verus!
