use std::ops::Range;

use tui_logic::textarea::buffer::MouseSelectionUpdate;
use tui_logic::textarea::buffer::SelectionCollapse;
use tui_logic::textarea::buffer::TextArea;
use tui_logic::ui::geometry::Position;
use tui_logic::ui::geometry::Rect;

fn textarea_with_text(text: &str) -> TextArea {
    let mut textarea = TextArea::new();
    textarea.set_text_clearing_elements(text);
    textarea
}

/// The display lines of an unwrapped text: each ends one past its last byte (its newline,
/// or one past the text for the last line).
fn unwrapped_lines(text: &str) -> Vec<Range<usize>> {
    let mut lines = Vec::new();
    let mut start = 0;
    for (i, b) in text.bytes().enumerate() {
        if b == b'\n' {
            lines.push(start..i + 1);
            start = i + 1;
        }
    }
    lines.push(start..text.len() + 1);
    lines
}

fn click(textarea: &mut TextArea, area: Rect, position: Position, update: MouseSelectionUpdate) -> bool {
    let text = textarea.text();
    let lines = unwrapped_lines(&text);
    textarea.set_cursor_from_screen_position(area, &lines, 0, position, update)
}

#[test]
fn click_maps_terminal_columns_to_text_positions() {
    let area = Rect::new(2, 3, 20, 1);
    let positions = [
        Position { x: area.x, y: area.y },
        Position { x: area.x + 5, y: area.y },
        Position { x: area.x + 11, y: area.y },
        Position { x: area.x + 15, y: area.y },
    ];
    let actual = positions
        .into_iter()
        .map(|position| {
            let mut textarea = textarea_with_text("hello world");
            let handled = click(&mut textarea, area, position, MouseSelectionUpdate::Begin);
            (handled, textarea.cursor())
        })
        .collect::<Vec<_>>();

    assert_eq!(actual, vec![(true, 0), (true, 5), (true, 11), (true, 11)]);
}

#[test]
fn click_uses_wrapping_unicode_width_and_scroll_state() {
    let text = "abcd日本ef";
    let area = Rect::new(4, 7, 4, 2);
    // Wrapped at four columns: "abcd", "日本", "ef"; the view scrolls to keep the cursor at
    // the end of the text visible, so it starts at the second line.
    let lines = vec![0..5, 4..11, 10..13];
    let mut textarea = textarea_with_text(text);
    textarea.set_cursor(text.len());

    let first_visible_line_handled = textarea.set_cursor_from_screen_position(
        area,
        &lines,
        1,
        Position { x: area.x, y: area.y },
        MouseSelectionUpdate::Begin,
    );
    let first_visible_line_cursor = textarea.cursor();

    let second_wide_cell_handled = textarea.set_cursor_from_screen_position(
        area,
        &lines,
        1,
        Position { x: area.x + 1, y: area.y },
        MouseSelectionUpdate::Begin,
    );
    let second_wide_cell_cursor = textarea.cursor();

    let after_wide_character_handled = textarea.set_cursor_from_screen_position(
        area,
        &lines,
        1,
        Position { x: area.x + 2, y: area.y },
        MouseSelectionUpdate::Begin,
    );
    let after_wide_character_cursor = textarea.cursor();

    assert_eq!(
        (
            first_visible_line_handled,
            first_visible_line_cursor,
            second_wide_cell_handled,
            second_wide_cell_cursor,
            after_wide_character_handled,
            after_wide_character_cursor,
        ),
        (true, 4, true, 4, true, 7)
    );
}

#[test]
fn click_uses_the_single_column_tab_representation() {
    let area = Rect::new(2, 3, 10, 1);
    let positions = [Position { x: area.x + 1, y: area.y }, Position { x: area.x + 2, y: area.y }];
    let actual = positions
        .into_iter()
        .map(|position| {
            let mut textarea = textarea_with_text("a\tb");
            let handled = click(&mut textarea, area, position, MouseSelectionUpdate::Begin);
            (handled, textarea.cursor())
        })
        .collect::<Vec<_>>();

    assert_eq!(actual, vec![(true, 1), (true, 2)]);
}

#[test]
fn click_clamps_to_atomic_element_edges_and_ignores_outside_positions() {
    let mut textarea = textarea_with_text("go[image]now");
    textarea.add_element_range(2..9).expect("element range");
    let area = Rect::new(1, 1, 20, 1);

    let near_start = click(&mut textarea, area, Position { x: area.x + 4, y: area.y }, MouseSelectionUpdate::Begin);
    let near_start_cursor = textarea.cursor();
    let near_end = click(&mut textarea, area, Position { x: area.x + 8, y: area.y }, MouseSelectionUpdate::Begin);
    let near_end_cursor = textarea.cursor();
    let outside = click(&mut textarea, area, Position { x: area.right(), y: area.y }, MouseSelectionUpdate::Begin);

    assert_eq!(
        (near_start, near_start_cursor, near_end, near_end_cursor, outside, textarea.cursor()),
        (true, 2, true, 9, false, 9)
    );
}

#[test]
fn clicking_or_dragging_within_atomic_element_selects_the_whole_element() {
    let prefix = "before ";
    let placeholder = "[Pasted Content 1100 chars]";
    let element_range = prefix.len()..prefix.len() + placeholder.len();
    let text = format!("{prefix}{placeholder} after");
    let mut clicked = textarea_with_text(&text);
    clicked.add_element_range(element_range.clone()).expect("element range");
    let mut dragged = textarea_with_text(&text);
    dragged.add_element_range(element_range.clone()).expect("element range");
    let area = Rect::new(2, 3, 60, 1);

    for selection_update in [MouseSelectionUpdate::Begin, MouseSelectionUpdate::Release] {
        assert!(click(
            &mut clicked,
            area,
            Position { x: area.x + prefix.len() as u16 + 2, y: area.y },
            selection_update,
        ));
    }

    for selection_update in [MouseSelectionUpdate::Begin, MouseSelectionUpdate::Drag, MouseSelectionUpdate::Release] {
        let element_offset = if selection_update == MouseSelectionUpdate::Begin { 2 } else { 4 };
        assert!(click(
            &mut dragged,
            area,
            Position { x: area.x + prefix.len() as u16 + element_offset, y: area.y },
            selection_update,
        ));
    }

    assert_eq!(
        (clicked.selection_range(), dragged.selection_range()),
        (Some(element_range.clone()), Some(element_range))
    );
}

fn select_by_mouse(textarea: &mut TextArea, area: Rect, anchor: u16, active: u16, with_drag: bool) {
    assert!(click(textarea, area, Position { x: area.x + anchor, y: area.y }, MouseSelectionUpdate::Begin));
    if with_drag {
        assert!(click(textarea, area, Position { x: area.x + active, y: area.y }, MouseSelectionUpdate::Drag));
    }
    assert!(click(textarea, area, Position { x: area.x + active, y: area.y }, MouseSelectionUpdate::Release));
}

#[test]
fn mouse_selection_is_deleted_or_replaced_by_editing_keys() {
    let area = Rect::new(2, 3, 20, 1);
    // Backspace and Delete remove the selection; a typed character replaces it.
    let edits: [(&str, Option<&str>, &str); 3] =
        [("backspace", None, "hello"), ("delete", None, "hello"), ("char", Some("!"), "hello!")];
    let mut actual = Vec::new();

    for (_key, typed, expected_text) in edits {
        let mut textarea = textarea_with_text("hello world");
        select_by_mouse(&mut textarea, area, 11, 5, true);
        let selection_before_edit = textarea.selection_range();

        match typed {
            None => assert!(textarea.delete_selection()),
            Some(text) => {
                textarea.insert_str(text);
            }
        }
        actual.push((selection_before_edit, textarea.text(), textarea.cursor(), textarea.selection_range()));

        assert_eq!(textarea.text(), expected_text);
    }

    assert_eq!(
        actual,
        vec![
            (Some(5..11), "hello".to_string(), 5, None),
            (Some(5..11), "hello".to_string(), 5, None),
            (Some(5..11), "hello!".to_string(), 6, None),
        ]
    );
}

#[test]
fn mouse_selection_is_used_by_kill_commands_and_yank() {
    let area = Rect::new(2, 3, 20, 1);
    let mut textarea = textarea_with_text("hello world");
    select_by_mouse(&mut textarea, area, 11, 5, false);

    assert!(textarea.kill_selection());
    let after_kill = (textarea.text(), textarea.cursor(), textarea.selection_range());
    let killed = textarea.kill_buffer();
    textarea.insert_str(&killed);

    assert_eq!(
        (after_kill, textarea.text(), textarea.cursor(), textarea.selection_range()),
        (("hello".to_string(), 5, None), "hello world".to_string(), 11, None)
    );
}

#[test]
fn release_position_completes_selection_without_an_intermediate_drag_event() {
    let area = Rect::new(2, 3, 20, 1);
    let mut textarea = textarea_with_text("hello world");

    assert!(click(&mut textarea, area, Position { x: area.x, y: area.y }, MouseSelectionUpdate::Begin));
    assert!(click(&mut textarea, area, Position { x: area.x + 5, y: area.y }, MouseSelectionUpdate::Release));

    assert_eq!(textarea.selection_range(), Some(0..5));
}

#[test]
fn arrow_keys_collapse_mouse_selection_to_the_requested_edge() {
    let area = Rect::new(2, 3, 20, 1);
    let cases = [
        (5, 11, SelectionCollapse::Start, 5),
        (11, 5, SelectionCollapse::Start, 5),
        (5, 11, SelectionCollapse::End, 11),
        (11, 5, SelectionCollapse::End, 11),
    ];
    let mut actual = Vec::new();

    for (anchor, active, collapse, expected_cursor) in cases {
        let mut textarea = textarea_with_text("hello world");
        select_by_mouse(&mut textarea, area, anchor, active, true);

        assert!(textarea.collapse_selection(collapse));
        actual.push((textarea.cursor(), textarea.selection_range()));

        assert_eq!(textarea.cursor(), expected_cursor);
    }

    assert_eq!(actual, vec![(5, None), (5, None), (11, None), (11, None)]);
}

#[test]
fn vim_normal_mode_click_after_line_clamps_before_deleting() {
    let area = Rect::new(2, 3, 20, 2);
    let cases = [(0, 1, "a\ncd"), (1, 4, "ab\nc")];
    let mut actual = Vec::new();

    for (row, expected_cursor, expected_text) in cases {
        let mut textarea = textarea_with_text("ab\ncd");
        textarea.set_vim_normal_mode(true);
        let position = Position { x: area.x + 10, y: area.y + row };
        assert!(click(&mut textarea, area, position, MouseSelectionUpdate::Begin));
        assert!(click(&mut textarea, area, position, MouseSelectionUpdate::Release));
        let before_delete = (textarea.cursor(), textarea.selection_range());

        // `x` deletes the character under the cursor.
        let cursor = textarea.cursor();
        textarea.replace_range(cursor..cursor + 1, "");
        actual.push((before_delete, textarea.text()));

        assert_eq!((textarea.cursor(), textarea.text().as_str()), (expected_cursor, expected_text));
    }

    assert_eq!(actual, vec![((1, None), "a\ncd".to_string()), ((4, None), "ab\nc".to_string())]);
}

#[test]
fn vim_normal_mode_drag_past_right_edge_selects_the_final_character() {
    let area = Rect::new(2, 3, 3, 1);
    let mut textarea = textarea_with_text("abc");
    textarea.set_vim_normal_mode(true);

    for (position, selection_update) in [
        (Position { x: area.x, y: area.y }, MouseSelectionUpdate::Begin),
        (Position { x: area.right(), y: area.y }, MouseSelectionUpdate::Drag),
        (Position { x: area.right(), y: area.y }, MouseSelectionUpdate::Release),
    ] {
        assert!(click(&mut textarea, area, position, selection_update));
    }

    assert_eq!(textarea.selection_range(), Some(0..3));
    assert!(textarea.delete_selection());
    assert_eq!((textarea.text().as_str(), textarea.cursor()), ("", 0));
}

#[test]
fn vim_normal_mode_reverse_drag_from_trailing_blank_includes_final_character() {
    let area = Rect::new(2, 3, 20, 1);
    let mut textarea = textarea_with_text("abc");
    textarea.set_vim_normal_mode(true);

    for (position, selection_update) in [
        (Position { x: area.x + 10, y: area.y }, MouseSelectionUpdate::Begin),
        (Position { x: area.x, y: area.y }, MouseSelectionUpdate::Drag),
        (Position { x: area.x, y: area.y }, MouseSelectionUpdate::Release),
    ] {
        assert!(click(&mut textarea, area, position, selection_update));
    }

    assert_eq!(textarea.selection_range(), Some(0..3));
    assert!(textarea.delete_selection());
    assert_eq!((textarea.text().as_str(), textarea.cursor()), ("", 0));
}

#[test]
fn vim_left_collapse_of_newline_selection_keeps_cursor_on_character() {
    let area = Rect::new(2, 3, 20, 2);
    let mut textarea = textarea_with_text("abc\ndef");
    textarea.set_vim_normal_mode(true);

    for (position, selection_update) in [
        (Position { x: area.x, y: area.y + 1 }, MouseSelectionUpdate::Begin),
        (Position { x: area.x + 10, y: area.y }, MouseSelectionUpdate::Drag),
        (Position { x: area.x + 10, y: area.y }, MouseSelectionUpdate::Release),
    ] {
        assert!(click(&mut textarea, area, position, selection_update));
    }

    assert_eq!(textarea.selection_range(), Some(3..4));
    assert!(textarea.collapse_selection(SelectionCollapse::Start));
    let collapsed_cursor = textarea.cursor();
    textarea.replace_range(collapsed_cursor..collapsed_cursor + 1, "");

    assert_eq!((collapsed_cursor, textarea.text().as_str()), (2, "ab\ndef"));
}

#[test]
fn vim_newline_selection_replacement_places_cursor_after_inserted_text() {
    let area = Rect::new(2, 3, 20, 2);
    let mut textarea = textarea_with_text("abc\ndef");
    textarea.set_vim_normal_mode(true);

    for (position, selection_update) in [
        (Position { x: area.x, y: area.y + 1 }, MouseSelectionUpdate::Begin),
        (Position { x: area.x + 10, y: area.y }, MouseSelectionUpdate::Release),
    ] {
        assert!(click(&mut textarea, area, position, selection_update));
    }

    assert_eq!((textarea.selection_range(), textarea.cursor()), (Some(3..4), 2));
    textarea.insert_str(" pasted ");

    assert_eq!(
        (textarea.text().as_str(), textarea.cursor(), textarea.selection_range()),
        ("abc pasted def", 11, None)
    );
}

#[test]
fn vim_right_collapse_of_end_of_line_element_keeps_cursor_off_newline() {
    let placeholder = "[Pasted Content 1200 chars]";
    let text = format!("a{placeholder}\nnext");
    let element_range = 1..1 + placeholder.len();
    let area = Rect::new(2, 3, 40, 2);
    let mut textarea = textarea_with_text(&text);
    textarea.add_element_range(element_range.clone()).expect("element range");
    textarea.set_vim_normal_mode(true);

    for selection_update in [MouseSelectionUpdate::Begin, MouseSelectionUpdate::Release] {
        assert!(click(&mut textarea, area, Position { x: area.x + 4, y: area.y }, selection_update));
    }
    assert!(textarea.collapse_selection(SelectionCollapse::End));
    let collapsed_cursor = textarea.cursor();
    // `x` on an atomic element deletes the whole element.
    textarea.replace_range(element_range, "");

    assert_eq!((collapsed_cursor, textarea.text().as_str()), (1, "a\nnext"));
}

#[test]
fn clicks_outside_the_drawn_lines_are_not_handled() {
    let area = Rect::new(0, 0, 10, 3);
    let mut textarea = textarea_with_text("one");
    assert!(!click(&mut textarea, area, Position { x: 1, y: 2 }, MouseSelectionUpdate::Begin));
    assert!(!click(&mut textarea, Rect::new(0, 0, 0, 3), Position { x: 0, y: 0 }, MouseSelectionUpdate::Begin));
    assert_eq!(textarea.cursor(), 0);
    assert_eq!(textarea.selection_range(), None);
}

#[test]
fn selecting_a_byte_range_yields_its_text() {
    let mut textarea = textarea_with_text("hello world");
    textarea.select_byte_range(6..11);
    assert_eq!(textarea.selection_range(), Some(6..11));
    assert_eq!(textarea.selected_text().as_deref(), Some("world"));
    textarea.select_byte_range(3..3);
    assert_eq!(textarea.selected_text(), None);
}
