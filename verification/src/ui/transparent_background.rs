//! Policy for fully transparent backgrounds.
//!
//! When enabled, every painted cell uses the terminal's default background so terminal-level
//! transparency shows through. Foregrounds, reverse video and the other modifiers are left
//! unchanged, so selection and emphasis styles keep working.

use vstd::prelude::*;

verus! {

/// A terminal colour.
#[derive(Clone, Copy, Debug, PartialEq, Eq, Structural)]
pub enum TermColor {
    /// The terminal's default colour.
    Reset,
    Black,
    Red,
    Green,
    Yellow,
    Blue,
    Magenta,
    Cyan,
    Gray,
    DarkGray,
    LightRed,
    LightGreen,
    LightYellow,
    LightBlue,
    LightMagenta,
    LightCyan,
    White,
    Rgb(u8, u8, u8),
    Indexed(u8),
}

/// The style of one painted cell: colours and modifier bits.
#[derive(Clone, Copy, Debug, PartialEq, Eq, Structural)]
pub struct CellStyle {
    pub fg: TermColor,
    pub bg: TermColor,
    pub modifier: u16,
}

/// `cell` with the terminal's default background.
pub open spec fn without_background(cell: CellStyle) -> CellStyle {
    CellStyle { bg: TermColor::Reset, ..cell }
}

/// Clearing a cell's background sets it to the terminal default and keeps the foreground
/// and every modifier.
pub proof fn law_cleared_cell_keeps_foreground_and_modifiers(cell: CellStyle)
    ensures
        without_background(cell).bg == TermColor::Reset,
        without_background(cell).fg == cell.fg,
        without_background(cell).modifier == cell.modifier,
{
}

/// Replaces every cell background with the terminal default.
pub fn apply_to_buffer(cells: &mut Vec<CellStyle>)
    ensures
        final(cells)@.len() == old(cells)@.len(),
        forall|i: int| 0 <= i < old(cells)@.len() ==> #[trigger] final(cells)@[i] == without_background(old(cells)@[i]),
        forall|i: int|
            0 <= i < old(cells)@.len() ==> {
                &&& (#[trigger] final(cells)@[i]).bg == TermColor::Reset
                &&& final(cells)@[i].fg == old(cells)@[i].fg
                &&& final(cells)@[i].modifier == old(cells)@[i].modifier
            },
{
    let n = cells.len();
    for i in 0..n
        invariant
            n == old(cells)@.len(),
            cells@.len() == n,
            forall|k: int| 0 <= k < i ==> #[trigger] cells@[k] == without_background(old(cells)@[k]),
            forall|k: int| i <= k < n ==> #[trigger] cells@[k] == old(cells)@[k],
    {
        let cell = cells[i];
        cells.set(i, CellStyle { bg: TermColor::Reset, ..cell });
    }
}

/// A style patch: colours to set (`None` keeps what is below) and modifiers to add and remove.
#[derive(Clone, Copy, Debug, PartialEq, Eq, Structural)]
pub struct TextStyle {
    pub fg: Option<TermColor>,
    pub bg: Option<TermColor>,
    pub add_modifier: u16,
    pub sub_modifier: u16,
}

/// A run of text with one style.
pub struct StyledSpan {
    pub content: String,
    pub style: TextStyle,
}

/// A line of styled spans, with a style for the whole line.
pub struct StyledLine {
    pub style: TextStyle,
    pub spans: Vec<StyledSpan>,
}

/// `style` with the background set to the terminal default.
pub open spec fn with_default_background(style: TextStyle) -> TextStyle {
    TextStyle { bg: Some(TermColor::Reset), ..style }
}

/// Whether `after` is `before` with the background set to the terminal default: the
/// foreground and the added and removed modifiers stay.
pub open spec fn only_background_reset(before: TextStyle, after: TextStyle) -> bool {
    &&& after.bg == Some(TermColor::Reset)
    &&& after.fg == before.fg
    &&& after.add_modifier == before.add_modifier
    &&& after.sub_modifier == before.sub_modifier
}

/// Stripping a style's background keeps its foreground and its emphasis.
pub proof fn law_stripped_style_keeps_foreground_and_emphasis(style: TextStyle)
    ensures
        only_background_reset(style, with_default_background(style)),
{
}

/// Sets the background of the line and of each of its spans to the terminal default; the text
/// and everything else about the styles stay.
pub fn strip_line_backgrounds(line: StyledLine) -> (r: StyledLine)
    ensures
        r.style == with_default_background(line.style),
        r.spans@.len() == line.spans@.len(),
        forall|i: int|
            0 <= i < line.spans@.len() ==> {
                &&& (#[trigger] r.spans@[i]).style == with_default_background(line.spans@[i].style)
                &&& r.spans@[i].content@ == line.spans@[i].content@
            },
        only_background_reset(line.style, r.style),
        forall|i: int| 0 <= i < line.spans@.len() ==> only_background_reset(line.spans@[i].style, #[trigger] r.spans@[i].style),
{
    let StyledLine { style, spans } = line;
    let mut spans = spans;
    let ghost before = spans@;
    let mut out: Vec<StyledSpan> = Vec::new();
    let n = spans.len();
    let mut taken: usize = 0;
    while spans.len() > 0
        invariant
            n == before.len(),
            taken + spans@.len() == n,
            spans@ == before.subrange(taken as int, n as int),
            out@.len() == taken,
            forall|k: int|
                0 <= k < taken ==> {
                    &&& (#[trigger] out@[k]).style == with_default_background(before[k].style)
                    &&& out@[k].content@ == before[k].content@
                },
        decreases spans@.len(),
    {
        let span = spans.remove(0);
        out.push(StyledSpan { content: span.content, style: TextStyle { bg: Some(TermColor::Reset), ..span.style } });
        taken = taken + 1;
    }
    StyledLine { style: TextStyle { bg: Some(TermColor::Reset), ..style }, spans: out }
}

} // verus!
