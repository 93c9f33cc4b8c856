//! The text buffer: UTF-8 text, cursor, atomic elements, selection and kill buffer.

use vstd::prelude::*;
use vstd::utf8::*;
use std::ops::Range;

use crate::ui::geometry::{Position, Rect, sat_sub};
use crate::textarea::utf8::{
    at_boundary, lemma_first_byte_leads, lemma_piece_valid, lemma_splice_valid, lemma_split_valid, str_bytes,
    utf8_to_string,
};

verus! {

/// Active mouse or keyboard selection endpoints, as byte offsets on character boundaries.
#[derive(Clone, Copy, Debug, PartialEq, Eq, Structural)]
pub struct TextSelection {
    /// Where the selection started.
    pub anchor: usize,
    /// The free end.
    pub active: usize,
}

/// The value of a [`TextArea`].
pub struct TextAreaView {
    pub text: Seq<u8>,
    pub cursor: int,
    pub elements: Seq<(int, int)>,
    pub selection: Option<TextSelection>,
    pub preferred_col: Option<usize>,
    pub kill_buffer: Seq<u8>,
    pub vim_normal: bool,
}

/// The text area. Atomic elements are byte ranges (placeholders for pasted content or
/// images) that editing and the cursor treat as a single unit.
pub struct TextArea {
    text: Vec<u8>,
    cursor_pos: usize,
    elements: Vec<Range<usize>>,
    selection: Option<TextSelection>,
    preferred_col: Option<usize>,
    kill_buffer: Vec<u8>,
    vim_normal: bool,
}

/// The element ranges as integer pairs.
pub open spec fn range_pairs(els: Seq<Range<usize>>) -> Seq<(int, int)> {
    els.map_values(|r: Range<usize>| (r.start as int, r.end as int))
}

/// Elements are non-empty, inside the text, on character boundaries, and ordered without
/// overlap.
pub open spec fn elements_ok(t: Seq<u8>, els: Seq<(int, int)>) -> bool {
    &&& forall|i: int|
        0 <= i < els.len() ==> {
            let e = #[trigger] els[i];
            &&& 0 <= e.0 < e.1 <= t.len()
            &&& at_boundary(t, e.0)
            &&& at_boundary(t, e.1)
        }
    &&& forall|i: int, j: int| 0 <= i < j < els.len() ==> (#[trigger] els[i]).1 <= (#[trigger] els[j]).0
}

impl View for TextArea {
    type V = TextAreaView;

    closed spec fn view(&self) -> TextAreaView {
        TextAreaView {
            text: self.text@,
            cursor: self.cursor_pos as int,
            elements: range_pairs(self.elements@),
            selection: self.selection,
            preferred_col: self.preferred_col,
            kill_buffer: self.kill_buffer@,
            vim_normal: self.vim_normal,
        }
    }
}

impl TextAreaView {
    /// The well-formedness of a text area.
    pub open spec fn wf(self) -> bool {
        &&& valid_utf8(self.text)
        &&& valid_utf8(self.kill_buffer)
        &&& at_boundary(self.text, self.cursor)
        &&& elements_ok(self.text, self.elements)
        &&& match self.selection {
            Some(s) => at_boundary(self.text, s.anchor as int) && at_boundary(self.text, s.active as int),
            None => true,
        }
    }

    /// The characters of the text.
    pub open spec fn chars(self) -> Seq<char> {
        decode_utf8(self.text)
    }
}

impl TextArea {
    /// An empty text area.
    pub fn new() -> (r: TextArea)
        ensures
            r@.wf(),
            r@.text.len() == 0,
            r@.cursor == 0,
            r@.elements.len() == 0,
            r@.selection is None,
            r@.preferred_col is None,
            r@.kill_buffer.len() == 0,
            !r@.vim_normal,
    {
        let r = TextArea {
            text: Vec::new(),
            cursor_pos: 0,
            elements: Vec::new(),
            selection: None,
            preferred_col: None,
            kill_buffer: Vec::new(),
            vim_normal: false,
        };
        assert(range_pairs(r.elements@) =~= Seq::<(int, int)>::empty());
        r
    }

    /// The text.
    pub fn text(&self) -> (s: String)
        requires
            self@.wf(),
        ensures
            s@ == self@.chars(),
    {
        utf8_to_string(self.text.as_slice())
    }

    /// The cursor, as a byte offset.
    pub fn cursor(&self) -> (c: usize)
        ensures
            c == self@.cursor,
    {
        self.cursor_pos
    }

    /// The text most recently killed.
    pub fn kill_buffer(&self) -> (s: String)
        requires
            self@.wf(),
        ensures
            s@ == decode_utf8(self@.kill_buffer),
    {
        utf8_to_string(self.kill_buffer.as_slice())
    }

    /// Whether Vim normal mode is active (the cursor then never rests on a line's end).
    pub fn is_vim_normal_mode(&self) -> (r: bool)
        ensures
            r == self@.vim_normal,
    {
        self.vim_normal
    }

    /// Turns Vim normal mode on or off.
    pub fn set_vim_normal_mode(&mut self, on: bool)
        requires
            old(self)@.wf(),
        ensures
            final(self)@ == (TextAreaView { vim_normal: on, ..old(self)@ }),
            final(self)@.wf(),
    {
        self.vim_normal = on;
    }

    /// The atomic element ranges, in text order.
    pub fn element_ranges(&self) -> (r: Vec<Range<usize>>)
        ensures
            range_pairs(r@) == self@.elements,
    {
        let mut r: Vec<Range<usize>> = Vec::new();
        for i in 0..self.elements.len()
            invariant
                range_pairs(r@) == range_pairs(self.elements@).take(i as int),
        {
            let e = &self.elements[i];
            let ghost before = r@;
            let copy = e.start..e.end;
            assert(copy.start == e.start && copy.end == e.end);
            r.push(copy);
            assert(r@ == before.push(copy));
            assert(range_pairs(r@) =~= range_pairs(before).push((copy.start as int, copy.end as int)));
            assert(range_pairs(r@) =~= range_pairs(self.elements@).take(i + 1));
        }
        assert(range_pairs(self.elements@).take(self.elements@.len() as int) =~= range_pairs(self.elements@));
        r
    }

    /// The active selection endpoints, if any.
    pub fn selection_endpoints(&self) -> (r: Option<TextSelection>)
        ensures
            r == self@.selection,
    {
        self.selection
    }
}

/// The smaller of two integers.
pub open spec fn min_int(a: int, b: int) -> int {
    if a <= b {
        a
    } else {
        b
    }
}

/// The larger of two integers.
pub open spec fn max_int(a: int, b: int) -> int {
    if a >= b {
        a
    } else {
        b
    }
}

/// The range `start..end` widened to cover every element that it intersects.
pub open spec fn expand_over(els: Seq<(int, int)>, start: int, end: int) -> (int, int)
    decreases els.len(),
{
    if els.len() == 0 {
        (start, end)
    } else {
        let prev = expand_over(els.drop_last(), start, end);
        let x = els.last();
        if x.0 < end && x.1 > start {
            (min_int(prev.0, x.0), max_int(prev.1, x.1))
        } else {
            prev
        }
    }
}

/// Widening keeps the range ordered, inside the text and on character boundaries.
pub proof fn lemma_expand_over(t: Seq<u8>, els: Seq<(int, int)>, start: int, end: int)
    requires
        elements_ok(t, els),
        0 <= start <= end <= t.len(),
        at_boundary(t, start),
        at_boundary(t, end),
    ensures
        expand_over(els, start, end).0 <= start,
        end <= expand_over(els, start, end).1,
        0 <= expand_over(els, start, end).0,
        expand_over(els, start, end).1 <= t.len(),
        at_boundary(t, expand_over(els, start, end).0),
        at_boundary(t, expand_over(els, start, end).1),
    decreases els.len(),
{
    if els.len() > 0 {
        let d = els.drop_last();
        assert(elements_ok(t, d)) by {
            assert forall|i: int| 0 <= i < d.len() implies #[trigger] d[i] == els[i] by {}
        }
        lemma_expand_over(t, d, start, end);
        assert(els[els.len() - 1] == els.last());
    }
}

/// The byte range a selection covers, widened over the elements it touches; `None` when
/// nothing is selected or the range is empty.
pub open spec fn selection_range_of(v: TextAreaView) -> Option<(int, int)> {
    match v.selection {
        None => None,
        Some(sel) => {
            let r = expand_over(
                v.elements,
                min_int(sel.anchor as int, sel.active as int),
                max_int(sel.anchor as int, sel.active as int),
            );
            if r.0 < r.1 {
                Some(r)
            } else {
                None
            }
        },
    }
}

/// An optional range as an optional integer pair.
pub open spec fn range_pair_opt(r: Option<Range<usize>>) -> Option<(int, int)> {
    match r {
        Some(x) => Some((x.start as int, x.end as int)),
        None => None,
    }
}

/// The text area after a press at `pos`: the selection starts there, or covers the whole of
/// the atomic element pressed on.
pub open spec fn began(v: TextAreaView, pos: usize, element: Option<(int, int)>) -> TextAreaView {
    TextAreaView {
        selection: Some(
            match element {
                Some(e) => TextSelection { anchor: e.0 as usize, active: e.1 as usize },
                None => TextSelection { anchor: pos, active: pos },
            },
        ),
        ..v
    }
}

/// The text area after dragging the free end of its selection to `active`; an atomic
/// element dragged onto is taken in whole, relative to the anchor. Without a selection,
/// nothing changes.
pub open spec fn endpoint_set(v: TextAreaView, active: usize, element: Option<(int, int)>) -> TextAreaView {
    match v.selection {
        None => v,
        Some(sel) => TextAreaView {
            selection: Some(
                TextSelection {
                    active: match element {
                        Some(e) => if sel.anchor <= e.0 {
                            e.1 as usize
                        } else {
                            e.0 as usize
                        },
                        None => active,
                    },
                    ..sel
                },
            ),
            ..v
        },
    }
}

/// The text area after a release: a selection that covers nothing is dropped.
pub open spec fn finished(v: TextAreaView) -> TextAreaView {
    if selection_range_of(v) is None {
        TextAreaView { selection: None, ..v }
    } else {
        v
    }
}

/// What the elements become when `s..e` is replaced by `ins_len` bytes: elements before
/// the range stay, elements after it shift, the others go.
pub open spec fn adjust_elements(els: Seq<(int, int)>, s: int, e: int, ins_len: int) -> Seq<(int, int)>
    decreases els.len(),
{
    if els.len() == 0 {
        els
    } else {
        let prev = adjust_elements(els.drop_last(), s, e, ins_len);
        let x = els.last();
        if x.1 <= s {
            prev.push(x)
        } else if x.0 >= e {
            prev.push((x.0 + ins_len - (e - s), x.1 + ins_len - (e - s)))
        } else {
            prev
        }
    }
}

/// Where the cursor goes when `s..e` is replaced by `ins_len` bytes: unchanged before the
/// range, after the inserted text inside it, shifted after it.
pub open spec fn adjusted_cursor(c: int, s: int, e: int, ins_len: int) -> int {
    if c < s {
        c
    } else if c <= e {
        s + ins_len
    } else {
        c + ins_len - (e - s)
    }
}

/// The text area after replacing the bytes `s..e` by `ins`: elements and cursor adjusted,
/// selection and preferred column cleared.
pub open spec fn replaced(v: TextAreaView, s: int, e: int, ins: Seq<u8>) -> TextAreaView {
    TextAreaView {
        text: v.text.subrange(0, s) + ins + v.text.subrange(e, v.text.len() as int),
        cursor: adjusted_cursor(v.cursor, s, e, ins.len() as int),
        elements: adjust_elements(v.elements, s, e, ins.len() as int),
        selection: None,
        preferred_col: None,
        ..v
    }
}

proof fn lemma_adjust_elements(t: Seq<u8>, els: Seq<(int, int)>, s: int, e: int, ins: Seq<u8>)
    requires
        elements_ok(t, els),
        0 <= s <= e <= t.len(),
        at_boundary(t, s),
        at_boundary(t, e),
        valid_utf8(ins),
    ensures
        elements_ok(t.subrange(0, s) + ins + t.subrange(e, t.len() as int), adjust_elements(els, s, e, ins.len() as int)),
        forall|i: int| 0 <= i < adjust_elements(els, s, e, ins.len() as int).len() ==> {
            let x = #[trigger] adjust_elements(els, s, e, ins.len() as int)[i];
            x.1 <= s || x.0 >= s + ins.len()
        },
    decreases els.len(),
{
    let t2 = t.subrange(0, s) + ins + t.subrange(e, t.len() as int);
    let d = els.drop_last();
    let n = ins.len() as int;
    if els.len() > 0 {
        assert(elements_ok(t, d)) by {
            assert forall|i: int| 0 <= i < d.len() implies #[trigger] d[i] == els[i] by {}
        }
        lemma_adjust_elements(t, d, s, e, ins);
        let prev = adjust_elements(d, s, e, n);
        let x = els.last();
        assert(x == els[els.len() - 1]);
        assert(forall|i: int| 0 <= i < d.len() ==> (#[trigger] d[i]).1 <= x.0) by {
            assert forall|i: int| 0 <= i < d.len() implies (#[trigger] d[i]).1 <= x.0 by {
                assert(d[i] == els[i]);
            }
        }
        if x.1 <= s {
            assert(at_boundary(t2, x.0)) by {
                if x.0 < t.len() {
                    assert(t2[x.0] == t[x.0]);
                }
            }
            assert(at_boundary(t2, x.1)) by {
                if x.1 < s {
                    assert(t2[x.1] == t[x.1]);
                } else if x.1 == s {
                    if n > 0 {
                        lemma_first_byte_leads(ins);
                        assert(t2[x.1] == ins[0]);
                    } else if e < t.len() {
                        assert(t2[x.1] == t[e]);
                    }
                }
            }
            lemma_prev_ends_before(d, s, e, n, x.0);
        } else if x.0 >= e {
            let y = (x.0 + n - (e - s), x.1 + n - (e - s));
            assert(at_boundary(t2, y.0)) by {
                if x.0 < t.len() {
                    assert(t2[y.0] == t[x.0]);
                }
            }
            assert(at_boundary(t2, y.1)) by {
                if x.1 < t.len() {
                    assert(t2[y.1] == t[x.1]);
                }
            }
            lemma_prev_ends_before(d, s, e, n, x.0);
        } else {
        }
    }
}

proof fn lemma_prev_ends_before(d: Seq<(int, int)>, s: int, e: int, n: int, bound: int)
    requires
        forall|i: int| 0 <= i < d.len() ==> (#[trigger] d[i]).1 <= bound,
        forall|i: int| 0 <= i < d.len() ==> (#[trigger] d[i]).0 < d[i].1,
        n >= 0,
        s <= e,
    ensures
        forall|i: int|
            0 <= i < adjust_elements(d, s, e, n).len() ==> (#[trigger] adjust_elements(d, s, e, n)[i]).1 <= if bound
                >= e {
                bound + n - (e - s)
            } else {
                bound
            },
    decreases d.len(),
{
    if d.len() > 0 {
        let dd = d.drop_last();
        assert forall|i: int| 0 <= i < dd.len() implies (#[trigger] dd[i]).1 <= bound && dd[i].0 < dd[i].1 by {
            assert(dd[i] == d[i]);
        }
        lemma_prev_ends_before(dd, s, e, n, bound);
        assert(d.last() == d[d.len() - 1]);
        let prev = adjust_elements(dd, s, e, n);
        let r = adjust_elements(d, s, e, n);
        assert forall|i: int| 0 <= i < r.len() implies (#[trigger] r[i]).1 <= if bound >= e {
            bound + n - (e - s)
        } else {
            bound
        } by {
            if i < prev.len() {
                assert(r[i] == prev[i]);
            }
        }
    }
}

impl TextArea {
    /// Widens `range` to cover every atomic element it intersects.
    pub fn expand_range_to_element_boundaries(&self, range: Range<usize>) -> (r: Range<usize>)
        requires
            self@.wf(),
            range.start <= range.end <= self@.text.len(),
            at_boundary(self@.text, range.start as int),
            at_boundary(self@.text, range.end as int),
        ensures
            (r.start as int, r.end as int) == expand_over(self@.elements, range.start as int, range.end as int),
            r.start <= range.start,
            range.end <= r.end <= self@.text.len(),
            at_boundary(self@.text, r.start as int),
            at_boundary(self@.text, r.end as int),
    {
        let ghost els = self@.elements;
        let mut start = range.start;
        let mut end = range.end;
        for i in 0..self.elements.len()
            invariant
                els == range_pairs(self.elements@),
                self@.wf(),
                (start as int, end as int) == expand_over(els.take(i as int), range.start as int, range.end as int),
                range.start <= range.end <= self@.text.len(),
                at_boundary(self@.text, range.start as int),
                at_boundary(self@.text, range.end as int),
        {
            proof {
                assert(els.take(i + 1).drop_last() =~= els.take(i as int));
                assert(els.take(i + 1).last() == els[i as int]);
                assert(elements_ok(self@.text, els.take(i as int))) by {
                    assert forall|k: int| 0 <= k < i implies #[trigger] els.take(i as int)[k] == els[k] by {}
                }
                lemma_expand_over(self@.text, els.take(i as int), range.start as int, range.end as int);
            }
            let e = &self.elements[i];
            if e.start < range.end && e.end > range.start {
                if e.start < start {
                    start = e.start;
                }
                if e.end > end {
                    end = e.end;
                }
            }
        }
        proof {
            assert(els.take(els.len() as int) =~= els);
            lemma_expand_over(self@.text, els, range.start as int, range.end as int);
        }
        start..end
    }

    /// The byte range of the active selection, widened over the atomic elements it touches;
    /// `None` when nothing, or only an empty range, is selected.
    pub fn selection_range(&self) -> (r: Option<Range<usize>>)
        requires
            self@.wf(),
        ensures
            match r {
                Some(x) => selection_range_of(self@) == Some((x.start as int, x.end as int)) && x.start < x.end
                    <= self@.text.len() && at_boundary(self@.text, x.start as int) && at_boundary(
                    self@.text,
                    x.end as int,
                ),
                None => selection_range_of(self@) is None,
            },
    {
        let selection = match self.selection {
            Some(sel) => sel,
            None => return None,
        };
        let start = if selection.anchor <= selection.active {
            selection.anchor
        } else {
            selection.active
        };
        let end = if selection.anchor >= selection.active {
            selection.anchor
        } else {
            selection.active
        };
        let expanded = self.expand_range_to_element_boundaries(start..end);
        if expanded.start < expanded.end {
            Some(expanded)
        } else {
            None
        }
    }

    /// Starts a selection at `pos`, or over the whole of `element` when the press landed on an
    /// atomic element.
    pub fn begin_selection(&mut self, pos: usize, element: Option<Range<usize>>)
        requires
            old(self)@.wf(),
            at_boundary(old(self)@.text, pos as int),
            element matches Some(e) ==> at_boundary(old(self)@.text, e.start as int) && at_boundary(
                old(self)@.text,
                e.end as int,
            ),
        ensures
            final(self)@.wf(),
            final(self)@ == began(old(self)@, pos, range_pair_opt(element)),
    {
        let (anchor, active) = match element {
            Some(e) => (e.start, e.end),
            None => (pos, pos),
        };
        self.selection = Some(TextSelection { anchor, active });
    }

    /// Moves the free end of an active selection to `active`; dragging onto an atomic
    /// element takes in the whole element, relative to the anchor.
    pub fn set_selection_endpoint(&mut self, active: usize, element: Option<Range<usize>>)
        requires
            old(self)@.wf(),
            at_boundary(old(self)@.text, active as int),
            element matches Some(e) ==> at_boundary(old(self)@.text, e.start as int) && at_boundary(
                old(self)@.text,
                e.end as int,
            ),
        ensures
            final(self)@.wf(),
            final(self)@ == endpoint_set(old(self)@, active, range_pair_opt(element)),
    {
        let mut selection = match self.selection {
            Some(sel) => sel,
            None => return ,
        };
        selection.active = match element {
            Some(e) => if selection.anchor <= e.start {
                e.end
            } else {
                e.start
            },
            None => active,
        };
        self.selection = Some(selection);
    }

    /// Selects `range` directly, anchored at its start.
    pub fn select_byte_range(&mut self, range: Range<usize>)
        requires
            old(self)@.wf(),
            at_boundary(old(self)@.text, range.start as int),
            at_boundary(old(self)@.text, range.end as int),
        ensures
            final(self)@.wf(),
            final(self)@ == (TextAreaView {
                selection: Some(TextSelection { anchor: range.start, active: range.end }),
                ..old(self)@
            }),
    {
        self.selection = Some(TextSelection { anchor: range.start, active: range.end });
    }

    /// Ends a mouse selection, dropping it when it covers nothing.
    pub fn finish_selection(&mut self)
        requires
            old(self)@.wf(),
        ensures
            final(self)@.wf(),
            final(self)@ == finished(old(self)@),
    {
        if self.selection_range().is_none() {
            self.selection = None;
        }
    }

    /// Drops the selection.
    pub fn clear_selection(&mut self)
        requires
            old(self)@.wf(),
        ensures
            final(self)@.wf(),
            final(self)@ == (TextAreaView { selection: None, ..old(self)@ }),
    {
        self.selection = None;
    }
}

fn splice_bytes(t: &Vec<u8>, s: usize, e: usize, ins: &[u8]) -> (r: Vec<u8>)
    requires
        s <= e <= t@.len(),
    ensures
        r@ == t@.subrange(0, s as int) + ins@ + t@.subrange(e as int, t@.len() as int),
{
    let mut r: Vec<u8> = Vec::new();
    for i in 0..s
        invariant
            s <= t@.len(),
            r@ == t@.subrange(0, i as int),
    {
        r.push(t[i]);
        assert(r@ =~= t@.subrange(0, i + 1));
    }
    for i in 0..ins.len()
        invariant
            r@ == t@.subrange(0, s as int) + ins@.subrange(0, i as int),
    {
        r.push(ins[i]);
        assert(r@ =~= t@.subrange(0, s as int) + ins@.subrange(0, i + 1));
    }
    assert(ins@.subrange(0, ins@.len() as int) =~= ins@);
    let ghost head = r@;
    for i in e..t.len()
        invariant
            e <= t@.len(),
            head == t@.subrange(0, s as int) + ins@,
            r@ == head + t@.subrange(e as int, i as int),
    {
        r.push(t[i]);
        assert(r@ =~= head + t@.subrange(e as int, i + 1));
    }
    r
}

fn copy_bytes(t: &Vec<u8>, s: usize, e: usize) -> (r: Vec<u8>)
    requires
        s <= e <= t@.len(),
    ensures
        r@ == t@.subrange(s as int, e as int),
{
    let mut r: Vec<u8> = Vec::new();
    for i in s..e
        invariant
            e <= t@.len(),
            r@ == t@.subrange(s as int, i as int),
    {
        r.push(t[i]);
        assert(r@ =~= t@.subrange(s as int, i + 1));
    }
    r
}

impl TextArea {
    fn replace_range_raw(&mut self, s: usize, e: usize, ins: &[u8])
        requires
            old(self)@.wf(),
            s <= e <= old(self)@.text.len(),
            at_boundary(old(self)@.text, s as int),
            at_boundary(old(self)@.text, e as int),
            valid_utf8(ins@),
            old(self)@.text.len() - (e - s) + ins@.len() <= usize::MAX,
        ensures
            final(self)@ == replaced(old(self)@, s as int, e as int, ins@),
            final(self)@.wf(),
    {
        let ghost v = self@;
        let n = ins.len();
        let new_text = splice_bytes(&self.text, s, e, ins);
        let mut new_elements: Vec<Range<usize>> = Vec::new();
        let ghost els = v.elements;
        for i in 0..self.elements.len()
            invariant
                els == range_pairs(self.elements@),
                v == self@,
                v.wf(),
                s <= e <= v.text.len(),
                n == ins@.len(),
                v.text.len() - (e - s) + n <= usize::MAX,
                range_pairs(new_elements@) == adjust_elements(els.take(i as int), s as int, e as int, n as int),
        {
            proof {
                assert(els.take(i + 1).drop_last() =~= els.take(i as int));
                assert(els.take(i + 1).last() == els[i as int]);
            }
            let el = &self.elements[i];
            let ghost before = new_elements@;
            if el.end <= s {
                let copy = el.start..el.end;
                new_elements.push(copy);
                assert(range_pairs(new_elements@) =~= range_pairs(before).push((copy.start as int, copy.end as int)));
            } else if el.start >= e {
                let copy = (el.start - e + s + n)..(el.end - e + s + n);
                new_elements.push(copy);
                assert(range_pairs(new_elements@) =~= range_pairs(before).push((copy.start as int, copy.end as int)));
            }
        }
        proof {
            assert(els.take(els.len() as int) =~= els);
            lemma_splice_valid(v.text, s as int, e as int, ins@);
            lemma_adjust_elements(v.text, els, s as int, e as int, ins@);
        }
        let c = self.cursor_pos;
        let new_cursor = if c < s {
            c
        } else if c <= e {
            s + n
        } else {
            c - e + s + n
        };
        let ghost t2 = new_text@;
        proof {
            let c = c as int;
            let nc = new_cursor as int;
            if c < s {
                assert(t2[c] == v.text[c]);
            } else if c <= e {
                if nc < t2.len() {
                    assert(t2[nc] == v.text[e as int]);
                }
            } else if c < v.text.len() {
                assert(t2[nc] == v.text[c]);
            }
        }
        self.text = new_text;
        self.elements = new_elements;
        self.cursor_pos = new_cursor;
        self.selection = None;
        self.preferred_col = None;
    }
}

/// The text area after killing `s..e`: the bytes go to the kill buffer and out of the text.
pub open spec fn killed(v: TextAreaView, s: int, e: int) -> TextAreaView {
    TextAreaView { kill_buffer: v.text.subrange(s, e), ..replaced(v, s, e, Seq::empty()) }
}

impl TextArea {
    /// Replaces `range`, widened over the atomic elements it touches, by `text`.
    pub fn replace_range(&mut self, range: Range<usize>, text: &str)
        requires
            old(self)@.wf(),
            range.start <= range.end <= old(self)@.text.len(),
            at_boundary(old(self)@.text, range.start as int),
            at_boundary(old(self)@.text, range.end as int),
            old(self)@.text.len() + text@.len() * 4 <= usize::MAX,
        ensures
            final(self)@.wf(),
            final(self)@ == ({
                let r = expand_over(old(self)@.elements, range.start as int, range.end as int);
                replaced(old(self)@, r.0, r.1, encode_utf8(text@))
            }),
    {
        let range = self.expand_range_to_element_boundaries(range);
        let bytes = str_bytes(text);
        proof {
            lemma_encoded_len_bound(text@);
        }
        self.replace_range_raw(range.start, range.end, bytes.as_slice());
    }

    /// Moves `range`, widened over the atomic elements it touches, into the kill buffer.
    pub fn kill_range(&mut self, range: Range<usize>)
        requires
            old(self)@.wf(),
            range.start <= range.end <= old(self)@.text.len(),
            at_boundary(old(self)@.text, range.start as int),
            at_boundary(old(self)@.text, range.end as int),
        ensures
            final(self)@.wf(),
            final(self)@ == ({
                let r = expand_over(old(self)@.elements, range.start as int, range.end as int);
                killed(old(self)@, r.0, r.1)
            }),
    {
        let range = self.expand_range_to_element_boundaries(range);
        let removed = copy_bytes(&self.text, range.start, range.end);
        proof {
            lemma_piece_valid(self@.text, range.start as int, range.end as int);
        }
        let empty: Vec<u8> = Vec::new();
        let slice = empty.as_slice();
        assert(slice@.len() == 0);
        assert(valid_utf8(slice@));
        let len = self.text.len();
        assert(self@.text.len() == len);
        self.replace_range_raw(range.start, range.end, slice);
        self.kill_buffer = removed;
    }

    /// Deletes the active selection without touching the kill buffer. Returns whether a
    /// selection was present.
    pub fn delete_selection(&mut self) -> (deleted: bool)
        requires
            old(self)@.wf(),
        ensures
            final(self)@.wf(),
            deleted == (selection_range_of(old(self)@) is Some),
            match selection_range_of(old(self)@) {
                None => final(self)@ == old(self)@,
                Some(r) => {
                    let x = expand_over(old(self)@.elements, r.0, r.1);
                    final(self)@ == replaced(old(self)@, x.0, x.1, Seq::empty())
                },
            },
    {
        let range = match self.selection_range() {
            Some(r) => r,
            None => return false,
        };
        let len = self.text.len();
        proof {
            reveal_strlit("");
            assert(encode_utf8(""@) =~= Seq::<u8>::empty());
            assert(self@.text.len() == len);
        }
        self.replace_range(range, "");
        true
    }

    /// Kills the active selection into the kill buffer. Returns whether a selection was
    /// present.
    pub fn kill_selection(&mut self) -> (killed_any: bool)
        requires
            old(self)@.wf(),
        ensures
            final(self)@.wf(),
            killed_any == (selection_range_of(old(self)@) is Some),
            match selection_range_of(old(self)@) {
                None => final(self)@ == old(self)@,
                Some(r) => {
                    let x = expand_over(old(self)@.elements, r.0, r.1);
                    final(self)@ == killed(old(self)@, x.0, x.1)
                },
            },
    {
        let range = match self.selection_range() {
            Some(r) => r,
            None => return false,
        };
        self.kill_range(range);
        true
    }

    /// Replaces the active selection with `text`, first moving the cursor to the start of
    /// the selection so that it lands after the inserted text. Returns the byte where the
    /// replacement starts, when a selection was present.
    pub fn replace_selection_with(&mut self, text: &str) -> (r: Option<usize>)
        requires
            old(self)@.wf(),
            old(self)@.text.len() + text@.len() * 4 <= usize::MAX,
        ensures
            final(self)@.wf(),
            match selection_range_of(old(self)@) {
                None => r is None && final(self)@ == old(self)@,
                Some(sr) => r == Some(sr.0 as usize) && {
                    let x = expand_over(old(self)@.elements, sr.0, sr.1);
                    final(self)@ == replaced(TextAreaView { cursor: sr.0, ..old(self)@ }, x.0, x.1, encode_utf8(text@))
                },
            },
    {
        let range = match self.selection_range() {
            Some(r) => r,
            None => return None,
        };
        let start = range.start;
        self.cursor_pos = start;
        self.replace_range(range, text);
        Some(start)
    }
}

/// UTF-8 never takes more than four bytes per character.
pub proof fn lemma_encoded_len_bound(s: Seq<char>)
    ensures
        encode_utf8(s).len() <= s.len() * 4,
    decreases s.len(),
{
    if s.len() > 0 {
        lemma_encoded_len_bound(s.drop_first());
        assert(encode_utf8(s) == encode_scalar(s[0] as u32) + encode_utf8(s.drop_first()));
    }
}

/// The start of the line holding byte `i`: just after the previous newline, or 0.
pub open spec fn line_start_at(t: Seq<u8>, i: int) -> int
    decreases i,
{
    if i <= 0 {
        0
    } else if t[i - 1] == 10 {
        i
    } else {
        line_start_at(t, i - 1)
    }
}

/// The end of the line holding byte `i`: the next newline, or the end of the text.
pub open spec fn line_end_at(t: Seq<u8>, i: int) -> int
    decreases t.len() - i,
{
    if i >= t.len() {
        t.len() as int
    } else if t[i] == 10 {
        i
    } else {
        line_end_at(t, i + 1)
    }
}

/// The nearest character start at or before `i`.
pub open spec fn char_start_at_or_before(t: Seq<u8>, i: int) -> int
    decreases i,
{
    if i <= 0 {
        0
    } else if !is_continuation_byte(t[i]) {
        i
    } else {
        char_start_at_or_before(t, i - 1)
    }
}

/// The character boundary just before `pos` (0 at the start).
pub open spec fn prev_char_boundary(t: Seq<u8>, pos: int) -> int {
    if pos <= 0 {
        0
    } else {
        char_start_at_or_before(t, pos - 1)
    }
}

/// The element that strictly contains `p`, if any.
pub open spec fn element_around(els: Seq<(int, int)>, p: int) -> Option<(int, int)>
    decreases els.len(),
{
    if els.len() == 0 {
        None
    } else if els.last().0 < p && p < els.last().1 {
        Some(els.last())
    } else {
        element_around(els.drop_last(), p)
    }
}

/// The boundary just before `pos` at which the cursor may rest: the previous character
/// boundary, or the start of the atomic element around it.
pub open spec fn prev_atomic_boundary_of(v: TextAreaView, pos: int) -> int {
    let p = prev_char_boundary(v.text, pos);
    match element_around(v.elements, p) {
        Some(x) => x.0,
        None => p,
    }
}

/// Where Vim normal mode lets the cursor rest at the end of its line: on the line's last
/// character (never on the newline), or at the start of an empty line.
pub open spec fn vim_line_end_of(v: TextAreaView) -> int {
    let ls = line_start_at(v.text, v.cursor);
    let le = line_end_at(v.text, v.cursor);
    if ls >= le {
        ls
    } else {
        prev_atomic_boundary_of(v, le)
    }
}

proof fn lemma_line_bounds(t: Seq<u8>, i: int)
    requires
        0 <= i <= t.len(),
    ensures
        0 <= line_start_at(t, i) <= i,
        i <= line_end_at(t, i) <= t.len(),
        line_end_at(t, i) < t.len() ==> t[line_end_at(t, i)] == 10,
    decreases t.len() - i,
{
    lemma_line_start_bounds(t, i);
    if i < t.len() && t[i] != 10 {
        lemma_line_bounds(t, i + 1);
    }
}

proof fn lemma_line_start_bounds(t: Seq<u8>, i: int)
    requires
        0 <= i <= t.len(),
    ensures
        0 <= line_start_at(t, i) <= i,
    decreases i,
{
    if i > 0 && t[i - 1] != 10 {
        lemma_line_start_bounds(t, i - 1);
    }
}

proof fn lemma_char_start(t: Seq<u8>, i: int)
    requires
        valid_utf8(t),
        0 <= i < t.len(),
    ensures
        0 <= char_start_at_or_before(t, i) <= i,
        at_boundary(t, char_start_at_or_before(t, i)),
    decreases i,
{
    if i > 0 && is_continuation_byte(t[i]) {
        lemma_char_start(t, i - 1);
    }
    if i == 0 {
        crate::textarea::utf8::lemma_first_byte_leads(t);
    }
}

proof fn lemma_element_around(t: Seq<u8>, els: Seq<(int, int)>, p: int)
    requires
        elements_ok(t, els),
    ensures
        element_around(els, p) matches Some(x) ==> x.0 < p < x.1 && at_boundary(t, x.0) && 0 <= x.0,
    decreases els.len(),
{
    if els.len() > 0 {
        let d = els.drop_last();
        assert(elements_ok(t, d)) by {
            assert forall|i: int| 0 <= i < d.len() implies #[trigger] d[i] == els[i] by {}
        }
        assert(els.last() == els[els.len() - 1]);
        lemma_element_around(t, d, p);
    }
}

impl TextArea {
    fn line_start(&self, i: usize) -> (r: usize)
        requires
            i <= self@.text.len(),
        ensures
            r == line_start_at(self@.text, i as int),
    {
        let mut j = i;
        while j > 0 && self.text[j - 1] != 10
            invariant
                j <= i <= self@.text.len(),
                line_start_at(self@.text, j as int) == line_start_at(self@.text, i as int),
            decreases j,
        {
            j = j - 1;
        }
        j
    }

    fn line_end(&self, i: usize) -> (r: usize)
        requires
            i <= self@.text.len(),
        ensures
            r == line_end_at(self@.text, i as int),
    {
        let mut j = i;
        while j < self.text.len() && self.text[j] != 10
            invariant
                i <= j <= self@.text.len(),
                line_end_at(self@.text, j as int) == line_end_at(self@.text, i as int),
            decreases self@.text.len() - j,
        {
            j = j + 1;
        }
        j
    }

    /// The cursor stop just before `pos`: the previous character boundary, moved to the
    /// start of an atomic element that contains it.
    pub fn prev_atomic_boundary(&self, pos: usize) -> (r: usize)
        requires
            self@.wf(),
            pos <= self@.text.len(),
        ensures
            r == prev_atomic_boundary_of(self@, pos as int),
            at_boundary(self@.text, r as int),
            pos > 0 ==> r < pos,
            pos == 0 ==> r == 0,
    {
        let ghost t = self@.text;
        let mut p = if pos == 0 {
            0
        } else {
            pos - 1
        };
        while p > 0 && 0x80 <= self.text[p] && self.text[p] <= 0xbf
            invariant
                p <= pos,
                pos > 0 ==> p < pos,
                t == self@.text,
                pos <= t.len(),
                pos > 0 ==> char_start_at_or_before(t, p as int) == char_start_at_or_before(t, pos - 1),
            decreases p,
        {
            p = p - 1;
        }
        proof {
            if pos > 0 {
                lemma_char_start(t, pos - 1);
            } else {
                if t.len() > 0 {
                    crate::textarea::utf8::lemma_first_byte_leads(t);
                }
            }
            lemma_element_around(t, self@.elements, p as int);
        }
        let ghost els = self@.elements;
        let ghost pb = prev_char_boundary(t, pos as int);
        assert(p as int == pb);
        assert(at_boundary(t, pb));
        let mut i = self.elements.len();
        assert(els.take(i as int) =~= els);
        while i > 0
            invariant
                i <= self.elements@.len(),
                els == range_pairs(self.elements@),
                els == self@.elements,
                t == self@.text,
                self@.wf(),
                p as int == pb,
                pb == prev_char_boundary(t, pos as int),
                pos > 0 ==> p < pos,
                element_around(els, p as int) == element_around(els.take(i as int), p as int),
            decreases i,
        {
            let e = &self.elements[i - 1];
            proof {
                assert(els.take(i as int).last() == els[i - 1]);
                assert(els.take(i as int).drop_last() =~= els.take(i - 1));
            }
            if e.start < p && p < e.end {
                return e.start;
            }
            i = i - 1;
        }
        p
    }

    /// Where Vim normal mode lets the cursor rest at the end of the current line.
    pub fn vim_line_end_cursor(&self) -> (r: usize)
        requires
            self@.wf(),
        ensures
            r == vim_line_end_of(self@),
            at_boundary(self@.text, r as int),
            r <= self@.text.len(),
    {
        proof {
            lemma_line_bounds(self@.text, self@.cursor);
        }
        let ls = self.line_start(self.cursor_pos);
        let le = self.line_end(self.cursor_pos);
        if ls >= le {
            ls
        } else {
            self.prev_atomic_boundary(le)
        }
    }
}

/// How an edit or navigation consumes an active selection.
#[derive(Clone, Copy, Debug, PartialEq, Eq, Structural)]
pub enum SelectionCollapse {
    /// Put the cursor at the start of the selection (e.g. Left).
    Start,
    /// Put the cursor at the end of the selection (e.g. Right).
    End,
    /// Drop the selection without moving the cursor (e.g. Up, Down).
    Discard,
}

/// The cursor after collapsing onto `edge`: the edge itself, kept off the end of its line
/// in Vim normal mode.
pub open spec fn collapsed_cursor(v: TextAreaView, edge: int) -> int {
    if v.vim_normal {
        min_int(edge, vim_line_end_of(TextAreaView { cursor: edge, ..v }))
    } else {
        edge
    }
}

/// The text area after consuming its selection for navigation.
pub open spec fn collapsed(v: TextAreaView, how: SelectionCollapse) -> TextAreaView {
    match selection_range_of(v) {
        None => TextAreaView { selection: None, ..v },
        Some(r) => match how {
            SelectionCollapse::Start => TextAreaView {
                cursor: collapsed_cursor(v, r.0),
                preferred_col: None,
                selection: None,
                ..v
            },
            SelectionCollapse::End => TextAreaView {
                cursor: collapsed_cursor(v, r.1),
                preferred_col: None,
                selection: None,
                ..v
            },
            SelectionCollapse::Discard => TextAreaView { selection: None, ..v },
        },
    }
}

/// Consuming a selection drops it and touches nothing but the cursor: discarding it (or
/// having none) keeps the cursor, and collapsing to an edge outside Vim normal mode puts the
/// cursor on that edge of the selected range.
pub proof fn law_collapse_moves_only_the_cursor(v: TextAreaView, how: SelectionCollapse)
    ensures
        collapsed(v, how).selection is None,
        collapsed(v, how).text == v.text,
        collapsed(v, how).elements == v.elements,
        collapsed(v, how).kill_buffer == v.kill_buffer,
        collapsed(v, how).vim_normal == v.vim_normal,
        how == SelectionCollapse::Discard || selection_range_of(v) is None ==> collapsed(v, how) == (TextAreaView {
            selection: None,
            ..v
        }),
        match selection_range_of(v) {
            Some(r) => !v.vim_normal ==> (how == SelectionCollapse::Start ==> collapsed(v, how).cursor == r.0) && (how
                == SelectionCollapse::End ==> collapsed(v, how).cursor == r.1),
            None => true,
        },
{
}

impl TextArea {
    /// Consumes an active selection for navigation: moves the cursor to the requested edge
    /// (kept off the end of its line in Vim normal mode) or leaves it, and drops the
    /// selection. Returns whether a non-empty selection was present.
    pub fn collapse_selection(&mut self, how: SelectionCollapse) -> (had: bool)
        requires
            old(self)@.wf(),
        ensures
            final(self)@.wf(),
            had == (selection_range_of(old(self)@) is Some),
            final(self)@ == collapsed(old(self)@, how),
            final(self)@.selection is None,
            final(self)@.text == old(self)@.text,
            final(self)@.elements == old(self)@.elements,
            final(self)@.kill_buffer == old(self)@.kill_buffer,
            final(self)@.vim_normal == old(self)@.vim_normal,
            how == SelectionCollapse::Discard || !had ==> final(self)@ == (TextAreaView {
                selection: None,
                ..old(self)@
            }),
            (had && how != SelectionCollapse::Discard && !old(self)@.vim_normal) ==> {
                let r = selection_range_of(old(self)@)->0;
                final(self)@.cursor == if how == SelectionCollapse::Start {
                    r.0
                } else {
                    r.1
                }
            },
    {
        let range = match self.selection_range() {
            Some(r) => r,
            None => {
                self.clear_selection();
                return false;
            },
        };
        match how {
            SelectionCollapse::Start => {
                self.cursor_pos = range.start;
                if self.is_vim_normal_mode() {
                    let end = self.vim_line_end_cursor();
                    if end < self.cursor_pos {
                        self.cursor_pos = end;
                    }
                }
                self.preferred_col = None;
            },
            SelectionCollapse::End => {
                self.cursor_pos = range.end;
                if self.is_vim_normal_mode() {
                    let end = self.vim_line_end_cursor();
                    if end < self.cursor_pos {
                        self.cursor_pos = end;
                    }
                }
                self.preferred_col = None;
            },
            SelectionCollapse::Discard => {},
        }
        self.clear_selection();
        true
    }

    /// The byte range of the selection's text, if a non-empty range is selected.
    pub fn selected_text(&self) -> (r: Option<String>)
        requires
            self@.wf(),
        ensures
            match selection_range_of(self@) {
                Some(x) => r is Some && r->0@ == decode_utf8(self@.text.subrange(x.0, x.1)),
                None => r is None,
            },
    {
        let range = self.selection_range()?;
        let bytes = copy_bytes(&self.text, range.start, range.end);
        proof {
            lemma_piece_valid(self@.text, range.start as int, range.end as int);
        }
        Some(utf8_to_string(bytes.as_slice()))
    }
}

/// `pos` moved out of an atomic element that strictly contains it, to the nearer edge
/// (the start on a tie).
pub open spec fn clamp_to_element_edge(els: Seq<(int, int)>, pos: int) -> int {
    match element_around(els, pos) {
        Some(x) => if pos - x.0 <= x.1 - pos {
            x.0
        } else {
            x.1
        },
        None => pos,
    }
}

proof fn lemma_element_around_edges(t: Seq<u8>, els: Seq<(int, int)>, p: int)
    requires
        elements_ok(t, els),
    ensures
        element_around(els, p) matches Some(x) ==> x.0 < p < x.1 && at_boundary(t, x.0) && at_boundary(t, x.1)
            && 0 <= x.0 && x.1 <= t.len(),
    decreases els.len(),
{
    if els.len() > 0 {
        let d = els.drop_last();
        assert(elements_ok(t, d)) by {
            assert forall|i: int| 0 <= i < d.len() implies #[trigger] d[i] == els[i] by {}
        }
        assert(els.last() == els[els.len() - 1]);
        lemma_element_around_edges(t, d, p);
    }
}

impl TextArea {
    /// Moves `pos` out of an atomic element that strictly contains it, to the nearer edge.
    pub fn clamp_pos_to_nearest_boundary(&self, pos: usize) -> (r: usize)
        requires
            self@.wf(),
            pos <= self@.text.len(),
        ensures
            r == clamp_to_element_edge(self@.elements, pos as int),
            r <= self@.text.len(),
            at_boundary(self@.text, pos as int) ==> at_boundary(self@.text, r as int),
    {
        proof {
            lemma_element_around_edges(self@.text, self@.elements, pos as int);
        }
        let ghost els = self@.elements;
        let mut i = self.elements.len();
        assert(els.take(i as int) =~= els);
        while i > 0
            invariant
                i <= self.elements@.len(),
                els == range_pairs(self.elements@),
                els == self@.elements,
                self@.wf(),
                pos <= self@.text.len(),
                element_around(els, pos as int) matches Some(x) ==> x.0 < pos < x.1 && at_boundary(self@.text, x.0)
                    && at_boundary(self@.text, x.1) && 0 <= x.0 && x.1 <= self@.text.len(),
                element_around(els, pos as int) == element_around(els.take(i as int), pos as int),
            decreases i,
        {
            let e = &self.elements[i - 1];
            proof {
                assert(els.take(i as int).last() == els[i - 1]);
                assert(els.take(i as int).drop_last() =~= els.take(i - 1));
            }
            if e.start < pos && pos < e.end {
                if pos - e.start <= e.end - pos {
                    return e.start;
                } else {
                    return e.end;
                }
            }
            i = i - 1;
        }
        pos
    }

    /// Replaces the whole text, dropping the atomic elements and the selection; the cursor
    /// stays where it was, pulled back inside the new text onto a character start.
    pub fn set_text_clearing_elements(&mut self, text: &str)
        requires
            old(self)@.wf(),
        ensures
            final(self)@.wf(),
            final(self)@.chars() == text@,
            final(self)@.text == encode_utf8(text@),
            final(self)@.elements.len() == 0,
            final(self)@.selection is None,
            final(self)@.preferred_col is None,
            final(self)@.cursor == if old(self)@.cursor >= final(self)@.text.len() {
                final(self)@.text.len() as int
            } else {
                char_start_at_or_before(final(self)@.text, old(self)@.cursor)
            },
            final(self)@.kill_buffer == old(self)@.kill_buffer,
            final(self)@.vim_normal == old(self)@.vim_normal,
    {
        let bytes = str_bytes(text);
        let len = bytes.len();
        let mut c = self.cursor_pos;
        if c >= len {
            c = len;
        } else {
            while c > 0 && 0x80 <= bytes[c] && bytes[c] <= 0xbf
                invariant
                    c < bytes@.len(),
                    len == bytes@.len(),
                    char_start_at_or_before(bytes@, c as int) == char_start_at_or_before(bytes@, old(self)@.cursor),
                decreases c,
            {
                c = c - 1;
            }
            proof {
                lemma_char_start(bytes@, old(self)@.cursor);
                if c == 0 {
                    crate::textarea::utf8::lemma_first_byte_leads(bytes@);
                }
            }
        }
        self.text = bytes;
        self.cursor_pos = c;
        self.elements = Vec::new();
        self.selection = None;
        self.preferred_col = None;
        assert(range_pairs(self.elements@) =~= Seq::<(int, int)>::empty());
    }

    /// Moves the cursor to `pos` (clamped to the text), out of any atomic element around it.
    pub fn set_cursor(&mut self, pos: usize)
        requires
            old(self)@.wf(),
            at_boundary(old(self)@.text, if pos <= old(self)@.text.len() { pos as int } else { old(self)@.text.len() as int }),
        ensures
            final(self)@.wf(),
            final(self)@ == (TextAreaView {
                cursor: clamp_to_element_edge(
                    old(self)@.elements,
                    if pos <= old(self)@.text.len() {
                        pos as int
                    } else {
                        old(self)@.text.len() as int
                    },
                ),
                preferred_col: None,
                ..old(self)@
            }),
    {
        let len = self.text.len();
        let p = if pos <= len {
            pos
        } else {
            len
        };
        let c = self.clamp_pos_to_nearest_boundary(p);
        self.cursor_pos = c;
        self.preferred_col = None;
    }

    /// Marks `range` as an atomic element. Refused (`None`) when it is empty, leaves the
    /// text, does not lie on character boundaries or overlaps an existing element;
    /// otherwise returns the element's position in text order.
    pub fn add_element_range(&mut self, range: Range<usize>) -> (r: Option<usize>)
        requires
            old(self)@.wf(),
        ensures
            final(self)@.wf(),
            match r {
                None => final(self)@ == old(self)@ && !(range.start < range.end <= old(self)@.text.len() && at_boundary(
                    old(self)@.text,
                    range.start as int,
                ) && at_boundary(old(self)@.text, range.end as int) && forall|k: int|
                    0 <= k < old(self)@.elements.len() ==> (#[trigger] old(self)@.elements[k]).1 <= range.start
                        || range.end <= old(self)@.elements[k].0),
                Some(i) => i <= old(self)@.elements.len() && final(self)@ == (TextAreaView {
                    elements: old(self)@.elements.insert(i as int, (range.start as int, range.end as int)),
                    ..old(self)@
                }),
            },
    {
        let len = self.text.len();
        if !(range.start < range.end && range.end <= len) {
            return None;
        }
        if !(range.start == len || !(0x80 <= self.text[range.start] && self.text[range.start] <= 0xbf)) {
            return None;
        }
        if !(range.end == len || !(0x80 <= self.text[range.end] && self.text[range.end] <= 0xbf)) {
            return None;
        }
        let ghost els = self@.elements;
        let mut pos: usize = 0;
        while pos < self.elements.len() && self.elements[pos].end <= range.start
            invariant
                pos <= self.elements@.len(),
                els == range_pairs(self.elements@),
                forall|k: int| 0 <= k < pos ==> (#[trigger] els[k]).1 <= range.start,
            decreases self.elements@.len() - pos,
        {
            pos = pos + 1;
        }
        if pos < self.elements.len() && self.elements[pos].start < range.end {
            assert(!((els[pos as int]).1 <= range.start || range.end <= els[pos as int].0));
            return None;
        }
        proof {
            let t = self@.text;
            assert forall|k: int| 0 <= k < els.len() implies (#[trigger] els[k]).1 <= range.start || range.end <= els[k].0 by {
                if k >= pos {
                    assert(els[pos as int].1 <= els[k].0 || k == pos);
                }
            }
        }
        let ghost before = self.elements@;
        self.elements.insert(pos, range.start..range.end);
        proof {
            assert(range_pairs(self.elements@) =~= els.insert(pos as int, (range.start as int, range.end as int)));
            let t = self@.text;
            let n = els.insert(pos as int, (range.start as int, range.end as int));
            assert forall|i: int, j: int| 0 <= i < j < n.len() implies (#[trigger] n[i]).1 <= (#[trigger] n[j]).0 by {
                if i < pos && j == pos {
                } else if i == pos && j > pos {
                    assert(n[j] == els[j - 1]);
                } else if i < pos && j > pos {
                    assert(n[j] == els[j - 1]);
                } else if i > pos {
                    assert(n[i] == els[i - 1]);
                    assert(n[j] == els[j - 1]);
                }
            }
        }
        Some(pos)
    }

    /// Inserts `text` at the cursor, or in place of the active selection when there is one;
    /// the cursor ends after the inserted text.
    pub fn insert_str(&mut self, text: &str)
        requires
            old(self)@.wf(),
            old(self)@.text.len() + text@.len() * 4 <= usize::MAX,
        ensures
            final(self)@.wf(),
            match selection_range_of(old(self)@) {
                Some(sr) => {
                    let x = expand_over(old(self)@.elements, sr.0, sr.1);
                    final(self)@ == replaced(TextAreaView { cursor: sr.0, ..old(self)@ }, x.0, x.1, encode_utf8(text@))
                },
                None => {
                    let p = clamp_to_element_edge(old(self)@.elements, old(self)@.cursor);
                    let x = expand_over(old(self)@.elements, p, p);
                    final(self)@ == replaced(old(self)@, x.0, x.1, encode_utf8(text@))
                },
            },
    {
        if self.replace_selection_with(text).is_some() {
            return;
        }
        let p = self.clamp_pos_to_nearest_boundary(self.cursor_pos);
        self.replace_range(p..p, text);
    }
}

/// The display width of a character in terminal columns, as the Unicode width tables give
/// it; `None` for control characters.
pub uninterp spec fn char_display_width(c: char) -> Option<usize>;

/// The display width of `c` (unicode-width's `UnicodeWidthChar::width`).
#[verifier::external_body]
fn unicode_char_width(c: char) -> (w: Option<usize>)
    ensures
        w == char_display_width(c),
{
    unicode_width::UnicodeWidthChar::width(c)
}

/// The character of a Unicode scalar value (std's `char::from_u32`, which succeeds on
/// scalar values).
#[verifier::external_body]
fn char_of_scalar(v: u32) -> (c: char)
    requires
        v <= 0x10FFFF,
        !(0xD800 <= v <= 0xDFFF),
    ensures
        c as u32 == v,
{
    char::from_u32(v).unwrap()
}

/// The bytes of `t` from `pos` on.
pub open spec fn suffix_from(t: Seq<u8>, pos: int) -> Seq<u8> {
    t.subrange(pos, t.len() as int)
}

/// The columns the character starting at `pos` takes; a character of unknown width (a
/// control character such as a tab) takes one.
pub open spec fn width_at(t: Seq<u8>, pos: int) -> int {
    match char_display_width(decode_first_scalar(suffix_from(t, pos)) as char) {
        Some(w) => w as int,
        None => 1,
    }
}

/// The UTF-8 length of the character starting at `pos`.
pub open spec fn char_len_at(t: Seq<u8>, pos: int) -> int {
    let n = length_of_first_codepoint(suffix_from(t, pos));
    if n >= 1 {
        n
    } else {
        1
    }
}

/// The byte offset, from `pos` up to `line_end`, of the character that covers display
/// column `target` when `pos` sits at column `col`; `line_end` when the line ends first.
pub open spec fn position_at_col(t: Seq<u8>, pos: int, line_end: int, col: int, target: int) -> int
    decreases if line_end > pos {
        line_end - pos
    } else {
        0
    },
{
    if pos >= line_end || pos < 0 || pos >= t.len() {
        line_end
    } else {
        let w = width_at(t, pos);
        if col + w > target {
            pos
        } else {
            position_at_col(t, pos + char_len_at(t, pos), line_end, col + w, target)
        }
    }
}

proof fn lemma_next_boundary(t: Seq<u8>, pos: int)
    requires
        valid_utf8(t),
        at_boundary(t, pos),
        pos < t.len(),
    ensures
        valid_first_scalar(suffix_from(t, pos)),
        pos + length_of_first_codepoint(suffix_from(t, pos)) <= t.len(),
        at_boundary(t, pos + length_of_first_codepoint(suffix_from(t, pos))),
        decode_first_scalar(suffix_from(t, pos)) <= 0x10FFFF,
        !(0xD800 <= decode_first_scalar(suffix_from(t, pos)) <= 0xDFFF),
        forall|k: int|
            0 < k < length_of_first_codepoint(suffix_from(t, pos)) ==> is_continuation_byte(#[trigger] t[pos + k]),
{
    let sfx = suffix_from(t, pos);
    lemma_split_valid(t, pos);
    let n = length_of_first_codepoint(sfx);
    let rest = sfx.subrange(n, sfx.len() as int);
    assert(valid_utf8(rest));
    if rest.len() > 0 {
        crate::textarea::utf8::lemma_first_byte_leads(rest);
        assert(rest[0] == t[pos + n]);
    }
    lemma_codepoint_bits(sfx[0], sfx[1], sfx[2]);
    assert forall|k: int| 0 < k < n implies is_continuation_byte(#[trigger] t[pos + k]) by {
        assert(t[pos + k] == sfx[k]);
    }
}

proof fn lemma_codepoint_bits(b0: u8, b1: u8, b2: u8)
    ensures
        (b0 & 0x7F) as u32 <= 0x7F,
        ((b0 & 0x1F) as u32) << 6 | (b1 & 0x3f) as u32 <= 0x7FF,
        ((b0 & 0x0F) as u32) << 12 | ((b1 & 0x3f) as u32) << 6 | (b2 & 0x3f) as u32 <= 0xFFFF,
{
    assert((b0 & 0x7F) as u32 <= 0x7F) by (bit_vector);
    assert(((b0 & 0x1F) as u32) << 6 | (b1 & 0x3f) as u32 <= 0x7FF) by (bit_vector);
    assert(((b0 & 0x0F) as u32) << 12 | ((b1 & 0x3f) as u32) << 6 | (b2 & 0x3f) as u32 <= 0xFFFF) by (bit_vector);
}

/// Decodes the character starting at a boundary: its scalar value and UTF-8 length.
fn decode_at(t: &Vec<u8>, pos: usize) -> (r: (char, usize))
    requires
        valid_utf8(t@),
        at_boundary(t@, pos as int),
        pos < t@.len(),
    ensures
        r.0 == decode_first_scalar(suffix_from(t@, pos as int)) as char,
        r.1 as int == length_of_first_codepoint(suffix_from(t@, pos as int)),
{
    proof {
        lemma_next_boundary(t@, pos as int);
    }
    let ghost sfx = suffix_from(t@, pos as int);
    let len = t.len();
    let b0 = t[pos];
    assert(b0 == sfx[0]);
    if b0 <= 0x7f {
        let v = (b0 & 0x7F) as u32;
        return (char_of_scalar(v), 1);
    }
    assert(length_of_first_codepoint(sfx) >= 2);
    let b1 = t[pos + 1];
    assert(b1 == sfx[1]);
    if 0xc0 <= b0 && b0 <= 0xdf {
        let v = (((b0 & 0x1F) as u32) << 6) | ((b1 & 0x3f) as u32);
        return (char_of_scalar(v), 2);
    }
    assert(length_of_first_codepoint(sfx) >= 3);
    let b2 = t[pos + 2];
    assert(b2 == sfx[2]);
    if 0xe0 <= b0 && b0 <= 0xef {
        let v = (((b0 & 0x0F) as u32) << 12) | (((b1 & 0x3f) as u32) << 6) | ((b2 & 0x3f) as u32);
        return (char_of_scalar(v), 3);
    }
    assert(length_of_first_codepoint(sfx) == 4);
    let b3 = t[pos + 3];
    assert(b3 == sfx[3]);
    let v = (((b0 & 0x07) as u32) << 18) | (((b1 & 0x3f) as u32) << 12) | (((b2 & 0x3f) as u32) << 6) | ((b3
        & 0x3f) as u32);
    (char_of_scalar(v), 4)
}

/// How a mouse event moves the selection.
#[derive(Clone, Copy, Debug, PartialEq, Eq, Structural)]
pub enum MouseSelectionUpdate {
    /// A press: start a new selection.
    Begin,
    /// A drag: move the free end.
    Drag,
    /// A release: move the free end and finish.
    Release,
}

/// Wrapped display lines are byte ranges whose end sits one past the last byte shown
/// (the newline, or one past the text for the last line); each starts on a character
/// boundary, and the position before its end (capped at the text length) is one too.
pub open spec fn wrapped_lines_ok(t: Seq<u8>, lines: Seq<Range<usize>>) -> bool {
    forall|i: int|
        0 <= i < lines.len() ==> {
            let l = #[trigger] lines[i];
            &&& l.start <= t.len()
            &&& at_boundary(t, l.start as int)
            &&& at_boundary(t, shown_end(t, l.end as int))
        }
}

/// The last byte a wrapped line shows, exclusive: one before its end, capped at the text.
pub open spec fn shown_end(t: Seq<u8>, end: int) -> int {
    let e = if end >= 1 {
        end - 1
    } else {
        0
    };
    min_int(e, t.len() as int)
}

/// The element whose range holds `p` (its start included), if any.
pub open spec fn element_at(els: Seq<(int, int)>, p: int) -> Option<(int, int)>
    decreases els.len(),
{
    if els.len() == 0 {
        None
    } else if els.last().0 <= p && p < els.last().1 {
        Some(els.last())
    } else {
        element_at(els.drop_last(), p)
    }
}

/// Whether a press, drag or release at `p` is handled: the area has cells and holds `p`,
/// or a drag or release sits just right of a row of the area.
pub open spec fn hit_accepted(area: Rect, p: Position, update: MouseSelectionUpdate) -> bool {
    let right_edge_drag = update != MouseSelectionUpdate::Begin && p.x == area.right_edge() && p.y >= area.y && p.y
        < area.bottom_edge();
    !(area.width == 0 || area.height == 0) && (area.holds(p) || right_edge_drag)
}

/// The shown byte range `(start, end)` of the wrapped line at screen row `p.y` when the view
/// is scrolled by `scroll` lines.
pub open spec fn line_at_row(t: Seq<u8>, area: Rect, lines: Seq<Range<usize>>, scroll: u16, p: Position) -> Option<(int, int)> {
    let idx = crate::ui::geometry::sat_add(scroll, sat_sub(p.y, area.y)) as int;
    if idx < lines.len() {
        let l = lines[idx];
        let le = shown_end(t, l.end as int);
        Some((min_int(l.start as int, le), le))
    } else {
        None
    }
}

/// The text area after a handled mouse event at `p`; `None` when the event is not handled
/// (and nothing changes).
pub open spec fn after_hit(
    v: TextAreaView,
    area: Rect,
    lines: Seq<Range<usize>>,
    scroll: u16,
    p: Position,
    update: MouseSelectionUpdate,
) -> Option<TextAreaView> {
    if !hit_accepted(area, p, update) {
        None
    } else {
        match line_at_row(v.text, area, lines, scroll, p) {
            None => None,
            Some(line) => {
                let raw = position_at_col(v.text, line.0, line.1, 0, sat_sub(p.x, area.x) as int);
                let element = element_at(v.elements, raw);
                let sel_pos = clamp_to_element_edge(v.elements, raw);
                let cursor = if v.vim_normal && line.0 < line.1 {
                    min_int(sel_pos, prev_atomic_boundary_of(v, line.1))
                } else {
                    sel_pos
                };
                let moved = TextAreaView { cursor, preferred_col: None, ..v };
                Some(
                    match update {
                        MouseSelectionUpdate::Begin => began(moved, sel_pos as usize, element),
                        MouseSelectionUpdate::Drag => endpoint_set(moved, sel_pos as usize, element),
                        MouseSelectionUpdate::Release => finished(endpoint_set(moved, sel_pos as usize, element)),
                    },
                )
            },
        }
    }
}

proof fn lemma_element_at(t: Seq<u8>, els: Seq<(int, int)>, p: int)
    requires
        elements_ok(t, els),
    ensures
        element_at(els, p) matches Some(x) ==> x.0 <= p < x.1 && at_boundary(t, x.0) && at_boundary(t, x.1) && 0
            <= x.0 && x.1 <= t.len(),
    decreases els.len(),
{
    if els.len() > 0 {
        let d = els.drop_last();
        assert(elements_ok(t, d)) by {
            assert forall|i: int| 0 <= i < d.len() implies #[trigger] d[i] == els[i] by {}
        }
        assert(els.last() == els[els.len() - 1]);
        lemma_element_at(t, d, p);
    }
}

impl TextArea {
    /// The byte offset of the character shown at display column `target_col` of the line
    /// `line_start..line_end`, or `line_end` past the line's last column.
    fn position_at_display_col_on_line(&self, line_start: usize, line_end: usize, target_col: usize) -> (r: usize)
        requires
            self@.wf(),
            line_start <= line_end <= self@.text.len(),
            at_boundary(self@.text, line_start as int),
            at_boundary(self@.text, line_end as int),
        ensures
            r == position_at_col(self@.text, line_start as int, line_end as int, 0, target_col as int),
            line_start <= r <= line_end,
            at_boundary(self@.text, r as int),
    {
        let ghost t = self@.text;
        let mut pos = line_start;
        let mut col: usize = 0;
        while pos < line_end
            invariant
                t == self@.text,
                self@.wf(),
                line_start <= pos <= line_end <= t.len(),
                at_boundary(t, pos as int),
                at_boundary(t, line_end as int),
                col <= target_col,
                position_at_col(t, pos as int, line_end as int, col as int, target_col as int) == position_at_col(
                    t,
                    line_start as int,
                    line_end as int,
                    0,
                    target_col as int,
                ),
            decreases line_end - pos,
        {
            proof {
                lemma_next_boundary(t, pos as int);
            }
            let (c, n) = decode_at(&self.text, pos);
            let w = match unicode_char_width(c) {
                Some(w) => w,
                None => 1,
            };
            assert(w as int == width_at(t, pos as int));
            if w > target_col - col {
                return pos;
            }
            proof {
                let next = pos + n;
                if next > line_end {
                    assert(is_continuation_byte(t[line_end as int]));
                }
                assert(char_len_at(t, pos as int) == n);
            }
            pos = pos + n;
            col = col + w;
        }
        pos
    }

    /// Moves the cursor to the editable position shown at terminal cell `position` and
    /// updates the selection. `lines` are the wrapped display lines of the text for the
    /// area's width and `scroll` the scroll offset, both as last rendered. Returns `true`
    /// when `position` addresses a visible wrapped line. Clicks never leave the cursor
    /// inside an atomic element, and in Vim normal mode never on a line's end.
    pub fn set_cursor_from_screen_position(
        &mut self,
        area: Rect,
        lines: &[Range<usize>],
        scroll: u16,
        position: Position,
        selection_update: MouseSelectionUpdate,
    ) -> (handled: bool)
        requires
            old(self)@.wf(),
            wrapped_lines_ok(old(self)@.text, lines@),
        ensures
            final(self)@.wf(),
            handled == (after_hit(old(self)@, area, lines@, scroll, position, selection_update) is Some),
            match after_hit(old(self)@, area, lines@, scroll, position, selection_update) {
                Some(v) => final(self)@ == v,
                None => final(self)@ == old(self)@,
            },
    {
        let is_right_edge_selection = (match selection_update {
            MouseSelectionUpdate::Drag | MouseSelectionUpdate::Release => true,
            MouseSelectionUpdate::Begin => false,
        }) && position.x == area.right() && position.y >= area.y && position.y < area.bottom();
        if area.is_empty() || (!area.contains(position) && !is_right_edge_selection) {
            return false;
        }
        let (line_start, line_end) = match self.line_range_at_screen_position(area, lines, scroll, position) {
            Some(r) => r,
            None => return false,
        };
        let target_col = position.x.saturating_sub(area.x) as usize;
        let raw_position = self.position_at_display_col_on_line(line_start, line_end, target_col);
        let element = self.element_containing(raw_position);
        let selection_position = self.clamp_pos_to_nearest_boundary(raw_position);
        self.cursor_pos = selection_position;
        if self.is_vim_normal_mode() && line_start < line_end {
            let end = self.prev_atomic_boundary(line_end);
            if end < self.cursor_pos {
                self.cursor_pos = end;
            }
        }
        self.preferred_col = None;
        match selection_update {
            MouseSelectionUpdate::Begin => self.begin_selection(selection_position, element),
            MouseSelectionUpdate::Drag => self.set_selection_endpoint(selection_position, element),
            MouseSelectionUpdate::Release => {
                self.set_selection_endpoint(selection_position, element);
                self.finish_selection();
            },
        }
        true
    }

    fn line_range_at_screen_position(&self, area: Rect, lines: &[Range<usize>], scroll: u16, position: Position) -> (r:
        Option<(usize, usize)>)
        requires
            self@.wf(),
            wrapped_lines_ok(self@.text, lines@),
        ensures
            match r {
                Some(x) => line_at_row(self@.text, area, lines@, scroll, position) == Some((x.0 as int, x.1 as int))
                    && x.0 <= x.1 <= self@.text.len() && at_boundary(self@.text, x.0 as int) && at_boundary(
                    self@.text,
                    x.1 as int,
                ),
                None => line_at_row(self@.text, area, lines@, scroll, position) is None,
            },
    {
        let visible_row = position.y.saturating_sub(area.y);
        let idx = scroll.saturating_add(visible_row) as usize;
        if idx >= lines.len() {
            return None;
        }
        let line = &lines[idx];
        let end = line.end.saturating_sub(1);
        let line_end = if end < self.text.len() {
            end
        } else {
            self.text.len()
        };
        let line_start = if line.start < line_end {
            line.start
        } else {
            line_end
        };
        assert(lines@[idx as int] == *line);
        Some((line_start, line_end))
    }

    /// The atomic element whose range holds `pos`, if any.
    fn element_containing(&self, pos: usize) -> (r: Option<Range<usize>>)
        requires
            self@.wf(),
        ensures
            range_pair_opt(r) == element_at(self@.elements, pos as int),
            r matches Some(x) ==> at_boundary(self@.text, x.start as int) && at_boundary(self@.text, x.end as int),
    {
        proof {
            lemma_element_at(self@.text, self@.elements, pos as int);
        }
        let ghost els = self@.elements;
        let mut i = self.elements.len();
        assert(els.take(i as int) =~= els);
        while i > 0
            invariant
                i <= self.elements@.len(),
                els == range_pairs(self.elements@),
                els == self@.elements,
                self@.wf(),
                element_at(els, pos as int) matches Some(x) ==> at_boundary(self@.text, x.0) && at_boundary(
                    self@.text,
                    x.1,
                ),
                element_at(els, pos as int) == element_at(els.take(i as int), pos as int),
            decreases i,
        {
            let e = &self.elements[i - 1];
            proof {
                assert(els.take(i as int).last() == els[i - 1]);
                assert(els.take(i as int).drop_last() =~= els.take(i - 1));
            }
            if e.start <= pos && pos < e.end {
                return Some(e.start..e.end);
            }
            i = i - 1;
        }
        None
    }
}

/// No element strictly contains `q` when each lies wholly on one side of it; then widening
/// the empty range at `q` over the elements leaves it empty.
proof fn lemma_not_inside(els: Seq<(int, int)>, q: int)
    requires
        forall|i: int| 0 <= i < els.len() ==> (#[trigger] els[i]).1 <= q || els[i].0 >= q,
    ensures
        element_around(els, q) is None,
        expand_over(els, q, q) == (q, q),
    decreases els.len(),
{
    if els.len() > 0 {
        let d = els.drop_last();
        assert forall|i: int| 0 <= i < d.len() implies (#[trigger] d[i]).1 <= q || d[i].0 >= q by {
            assert(d[i] == els[i]);
        }
        assert(els.last() == els[els.len() - 1]);
        lemma_not_inside(d, q);
    }
}

/// The edges of an element lie inside no element.
proof fn lemma_edges_not_inside(t: Seq<u8>, els: Seq<(int, int)>, k: int)
    requires
        elements_ok(t, els),
        0 <= k < els.len(),
    ensures
        element_around(els, els[k].0) is None,
        element_around(els, els[k].1) is None,
{
    assert forall|i: int| 0 <= i < els.len() implies (#[trigger] els[i]).1 <= els[k].0 || els[i].0 >= els[k].0 by {
        if i < k {
            assert(els[i].1 <= els[k].0);
        } else if i > k {
            assert(els[k].1 <= els[i].0);
        }
    }
    lemma_not_inside(els, els[k].0);
    assert forall|i: int| 0 <= i < els.len() implies (#[trigger] els[i]).1 <= els[k].1 || els[i].0 >= els[k].1 by {
        if i < k {
            assert(els[i].1 <= els[k].0);
        } else if i > k {
            assert(els[k].1 <= els[i].0);
        }
    }
    lemma_not_inside(els, els[k].1);
}

/// The element found around a position is one of the elements.
proof fn lemma_element_around_member(els: Seq<(int, int)>, p: int)
    ensures
        element_around(els, p) matches Some(x) ==> exists|k: int| 0 <= k < els.len() && els[k] == x,
    decreases els.len(),
{
    if els.len() > 0 {
        let d = els.drop_last();
        lemma_element_around_member(d, p);
        if element_around(els, p) is Some {
            if els.last().0 < p && p < els.last().1 {
                assert(els[els.len() - 1] == els.last());
            } else {
                let x = element_around(d, p)->0;
                let k = choose|k: int| 0 <= k < d.len() && d[k] == x;
                assert(els[k] == d[k]);
            }
        }
    }
}

/// A position moved to the edge of the element around it lies inside no element.
proof fn lemma_clamped_not_inside(t: Seq<u8>, els: Seq<(int, int)>, p: int)
    requires
        elements_ok(t, els),
    ensures
        element_around(els, clamp_to_element_edge(els, p)) is None,
{
    lemma_element_around_member(els, p);
    if let Some(x) = element_around(els, p) {
        let k = choose|k: int| 0 <= k < els.len() && els[k] == x;
        lemma_edges_not_inside(t, els, k);
    }
}

/// The previous position where the cursor may rest lies inside no element.
proof fn lemma_prev_atomic_not_inside(v: TextAreaView, pos: int)
    requires
        v.wf(),
    ensures
        element_around(v.elements, prev_atomic_boundary_of(v, pos)) is None,
{
    let p = prev_char_boundary(v.text, pos);
    lemma_element_around_member(v.elements, p);
    if let Some(x) = element_around(v.elements, p) {
        let k = choose|k: int| 0 <= k < v.elements.len() && v.elements[k] == x;
        lemma_edges_not_inside(v.text, v.elements, k);
    }
}

/// A click, drag or release never leaves the cursor strictly inside an atomic element.
pub proof fn law_click_never_lands_inside_element(
    v: TextAreaView,
    area: Rect,
    lines: Seq<Range<usize>>,
    scroll: u16,
    p: Position,
    update: MouseSelectionUpdate,
)
    requires
        v.wf(),
    ensures
        after_hit(v, area, lines, scroll, p, update) matches Some(w) ==> element_around(w.elements, w.cursor) is None,
{
    if let Some(w) = after_hit(v, area, lines, scroll, p, update) {
        let line = line_at_row(v.text, area, lines, scroll, p)->0;
        let raw = position_at_col(v.text, line.0, line.1, 0, sat_sub(p.x, area.x) as int);
        lemma_clamped_not_inside(v.text, v.elements, raw);
        lemma_prev_atomic_not_inside(v, line.1);
        assert(w.elements == v.elements);
    }
}

/// Killing a range and yanking the killed text back at the cursor restores the text, with
/// the cursor after the yanked text, when the cursor was inside the killed range.
pub proof fn law_kill_then_yank_restores_text(v: TextAreaView, s: int, e: int)
    requires
        v.wf(),
        0 <= s <= e <= v.text.len(),
        at_boundary(v.text, s),
        at_boundary(v.text, e),
        s <= v.cursor <= e,
    ensures
        ({
            let w = killed(v, s, e);
            let ins = encode_utf8(decode_utf8(w.kill_buffer));
            let q = clamp_to_element_edge(w.elements, w.cursor);
            let x = expand_over(w.elements, q, q);
            let y = replaced(w, x.0, x.1, ins);
            &&& w.selection is None
            &&& y.text == v.text
            &&& y.cursor == e
        }),
{
    broadcast use vstd::utf8::decode_utf8_encode_utf8;

    let t = v.text;
    let w = killed(v, s, e);
    lemma_piece_valid(t, s, e);
    assert(encode_utf8(decode_utf8(w.kill_buffer)) == w.kill_buffer);
    lemma_adjust_elements(t, v.elements, s, e, Seq::empty());
    let els = w.elements;
    assert forall|i: int| 0 <= i < els.len() implies (#[trigger] els[i]).1 <= s || els[i].0 >= s by {
        assert(els[i] == adjust_elements(v.elements, s, e, 0)[i]);
    }
    lemma_not_inside(els, s);
    assert(w.cursor == s);
    let y = replaced(w, s, s, w.kill_buffer);
    assert(w.text =~= t.subrange(0, s) + t.subrange(e, t.len() as int));
    assert(y.text =~= t);
}

/// Whether the element `x` meets the range `start..end` (an empty range meets the elements
/// strictly around it).
pub open spec fn meets(x: (int, int), start: int, end: int) -> bool {
    x.0 < end && x.1 > start
}

/// Widening `start..end` reaches exactly as far as the elements it meets: each end is the
/// range's own end or the edge of a met element, and every met element lies inside.
proof fn lemma_expand_over_reach(els: Seq<(int, int)>, start: int, end: int)
    ensures
        ({
            let r = expand_over(els, start, end);
            &&& r.0 <= start
            &&& end <= r.1
            &&& forall|k: int| 0 <= k < els.len() && meets(#[trigger] els[k], start, end) ==> r.0 <= els[k].0 && els[k].1 <= r.1
            &&& (r.0 == start || exists|k: int| 0 <= k < els.len() && meets(els[k], start, end) && r.0 == #[trigger] els[k].0)
            &&& (r.1 == end || exists|k: int| 0 <= k < els.len() && meets(els[k], start, end) && r.1 == #[trigger] els[k].1)
        }),
    decreases els.len(),
{
    if els.len() > 0 {
        let d = els.drop_last();
        lemma_expand_over_reach(d, start, end);
        let n = els.len() - 1;
        assert(els[n] == els.last());
        assert forall|k: int| 0 <= k < n implies #[trigger] els[k] == d[k] by {}
        let prev = expand_over(d, start, end);
        if prev.0 != start {
            let k = choose|k: int| 0 <= k < d.len() && meets(d[k], start, end) && prev.0 == #[trigger] d[k].0;
            assert(els[k] == d[k]);
        }
        if prev.1 != end {
            let k = choose|k: int| 0 <= k < d.len() && meets(d[k], start, end) && prev.1 == #[trigger] d[k].1;
            assert(els[k] == d[k]);
        }
    }
}

/// The selection never splits an atomic element: its ends lie inside no element, and each
/// element it meets lies wholly inside it.
pub proof fn law_selection_never_splits_element(v: TextAreaView)
    requires
        v.wf(),
    ensures
        selection_range_of(v) matches Some(r) ==> {
            &&& element_around(v.elements, r.0) is None
            &&& element_around(v.elements, r.1) is None
            &&& forall|k: int|
                0 <= k < v.elements.len() && #[trigger] v.elements[k].0 < r.1 && v.elements[k].1 > r.0 ==> r.0
                    <= v.elements[k].0 && v.elements[k].1 <= r.1
        },
{
    if let Some(sel) = v.selection {
        let els = v.elements;
        let start = min_int(sel.anchor as int, sel.active as int);
        let end = max_int(sel.anchor as int, sel.active as int);
        let r = expand_over(els, start, end);
        lemma_expand_over_reach(els, start, end);
        assert forall|i: int| 0 <= i < els.len() implies (#[trigger] els[i]).1 <= r.0 || els[i].0 >= r.0 by {
            if !meets(els[i], start, end) && r.0 != start {
                let k = choose|k: int| 0 <= k < els.len() && meets(els[k], start, end) && r.0 == #[trigger] els[k].0;
                if i < k {
                    assert(els[i].1 <= els[k].0);
                } else if i > k {
                    assert(els[k].1 <= els[i].0);
                }
            }
        }
        lemma_not_inside(els, r.0);
        assert forall|i: int| 0 <= i < els.len() implies (#[trigger] els[i]).1 <= r.1 || els[i].0 >= r.1 by {
            if !meets(els[i], start, end) && r.1 != end {
                let k = choose|k: int| 0 <= k < els.len() && meets(els[k], start, end) && r.1 == #[trigger] els[k].1;
                if i < k {
                    assert(els[i].1 <= els[k].0);
                } else if i > k {
                    assert(els[k].1 <= els[i].0);
                }
            }
        }
        lemma_not_inside(els, r.1);
        assert forall|k: int|
            0 <= k < els.len() && #[trigger] els[k].0 < r.1 && els[k].1 > r.0 implies r.0 <= els[k].0 && els[k].1
                <= r.1 by {
            if !meets(els[k], start, end) {
                // An element beyond the range cannot reach into its widening.
                if els[k].0 >= end {
                    if r.1 != end {
                        let j = choose|j: int| 0 <= j < els.len() && meets(els[j], start, end) && r.1 == #[trigger] els[j].1;
                        if j < k {
                            assert(els[j].1 <= els[k].0);
                        } else if j > k {
                            assert(els[k].1 <= els[j].0);
                        }
                    }
                } else {
                    if r.0 != start {
                        let j = choose|j: int| 0 <= j < els.len() && meets(els[j], start, end) && r.0 == #[trigger] els[j].0;
                        if j < k {
                            assert(els[j].1 <= els[k].0);
                        } else if j > k {
                            assert(els[k].1 <= els[j].0);
                        }
                    }
                }
            }
        }
    }
}

} // verus!
