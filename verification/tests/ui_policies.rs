use std::ops::Range;

use tui_logic::textarea::buffer::MouseSelectionUpdate;
use tui_logic::textarea::buffer::TextArea;
use tui_logic::ui::agents_overview::add_agents_overview_error;
use tui_logic::ui::composer_mouse::dismiss_selection;
use tui_logic::ui::composer_mouse::finished_selection;
use tui_logic::ui::composer_mouse::ComposerMouseOutcome;
use tui_logic::ui::composer_mouse::ComposerMouseState;
use tui_logic::ui::composer_mouse::MouseButton;
use tui_logic::ui::composer_mouse::MouseEvent;
use tui_logic::ui::composer_mouse::MouseEventKind;
use tui_logic::ui::composer_mouse::MouseRoute;
use tui_logic::ui::copy_toast::toast_area;
use tui_logic::ui::copy_toast::CopyFeedback;
use tui_logic::ui::copy_toast::CopyToast;
use tui_logic::ui::copy_toast::CopyToastKind;
use tui_logic::ui::copy_toast::ToastEffects;
use tui_logic::ui::copy_toast::TOAST_DURATION_MS;
use tui_logic::ui::frame::content_insets;
use tui_logic::ui::frame::inner_width;
use tui_logic::ui::frame::vertical_chrome;
use tui_logic::ui::frame::Insets;
use tui_logic::ui::geometry::Position;
use tui_logic::ui::geometry::Rect;
use tui_logic::ui::transparent_background::apply_to_buffer;
use tui_logic::ui::transparent_background::strip_line_backgrounds;
use tui_logic::ui::transparent_background::CellStyle;
use tui_logic::ui::transparent_background::StyledLine;
use tui_logic::ui::transparent_background::StyledSpan;
use tui_logic::ui::transparent_background::TermColor;
use tui_logic::ui::transparent_background::TextStyle;

const BOLD: u16 = 0b0000_0001;
const UNDERLINED: u16 = 0b0000_1000;
const REVERSED: u16 = 0b0100_0000;

#[test]
fn success_toast_renders_copied_in_the_top_right() {
    let toast = CopyToast { kind: CopyToastKind::Success, expires_at: 1_000 };
    let area = Rect::new(0, 0, 40, 5);
    let drawn = toast_area(&toast, area).expect("toast area");
    assert_eq!(toast.label(), "Copied");
    // " Copied " right-aligned on the top row.
    assert_eq!(drawn, Rect::new(32, 0, 8, 1));
    assert!(drawn.x > 10, "expected top-right placement, got {drawn:?}");
}

#[test]
fn error_toast_renders_failure_label() {
    let toast = CopyToast { kind: CopyToastKind::Error, expires_at: 1_000 };
    let area = Rect::new(0, 0, 40, 3);
    assert_eq!(toast.label(), "Copy failed");
    assert_eq!(toast_area(&toast, area), Some(Rect::new(27, 0, 13, 1)));
}

#[test]
fn toast_is_not_drawn_in_narrow_or_empty_areas_and_leaves_a_free_column() {
    let toast = CopyToast { kind: CopyToastKind::Error, expires_at: 1_000 };
    assert_eq!(toast_area(&toast, Rect::new(0, 0, 7, 3)), None);
    assert_eq!(toast_area(&toast, Rect::new(0, 0, 40, 0)), None);
    // Eight columns: the label is cut to seven, leaving the first column free.
    assert_eq!(toast_area(&toast, Rect::new(5, 2, 8, 3)), Some(Rect::new(6, 2, 7, 1)));
}

#[test]
fn copy_failure_shows_an_error_toast() {
    let mut feedback: CopyFeedback<u32> = CopyFeedback::new();
    let fx = feedback.copy_composer_text_with(100, Err("clipboard unavailable".to_string()));
    let toast = feedback.toast.expect("error toast");
    assert_eq!(toast.kind, CopyToastKind::Error);
    assert_eq!(toast.expires_at, 100 + TOAST_DURATION_MS);
    assert_eq!(fx, ToastEffects { schedule_frame_in: Some(TOAST_DURATION_MS), redraw: true });
    assert_eq!(feedback.clipboard_lease, None);
}

#[test]
fn copy_toast_expires_on_pre_draw_tick() {
    let mut feedback: CopyFeedback<u32> = CopyFeedback::new();
    feedback.copy_composer_text_with(100, Ok(Some(7)));
    assert!(feedback.toast.is_some());
    assert_eq!(feedback.clipboard_lease, Some(7));

    // Still visible: ask for a frame when it expires.
    let fx = feedback.expire_copy_toast(1_000);
    assert_eq!(fx, ToastEffects { schedule_frame_in: Some(900), redraw: false });
    assert_eq!(feedback.visible_toast(1_000).map(|t| t.kind), Some(CopyToastKind::Success));

    // Expired: dropped and redrawn; the lease stays.
    let fx = feedback.expire_copy_toast(1_900);
    assert_eq!(fx, ToastEffects { schedule_frame_in: None, redraw: true });
    assert!(feedback.toast.is_none());
    assert_eq!(feedback.visible_toast(1_900), None);
    assert_eq!(feedback.clipboard_lease, Some(7));
    assert_eq!(feedback.expire_copy_toast(2_000), ToastEffects { schedule_frame_in: None, redraw: false });
}

#[test]
fn toast_visibility_ends_at_its_expiry() {
    let toast = CopyToast::success(10);
    assert!(toast.is_visible(10));
    assert!(toast.is_visible(10 + TOAST_DURATION_MS - 1));
    assert!(!toast.is_visible(10 + TOAST_DURATION_MS));
    assert_eq!(CopyToast::error(0).kind, CopyToastKind::Error);
}

#[test]
fn composer_frame_geometry() {
    assert_eq!(content_insets(), Insets { top: 1, left: 4, bottom: 1, right: 2 });
    assert_eq!(inner_width(30, 0), 24);
    assert_eq!(inner_width(30, 3), 21);
    assert_eq!(inner_width(5, 0), 0);
    assert_eq!(vertical_chrome(), 2);
}

#[test]
fn agents_overview_error_offers_the_unsent_draft() {
    let mut unsent = Some("draft".to_string());
    let report = add_agents_overview_error(&mut unsent, true, "boom".to_string());
    assert_eq!(unsent, None);
    assert_eq!(report.error_message, "boom");
    let view = report.view.expect("error view");
    assert_eq!(view.title, "Unable to complete action");
    assert_eq!(view.message, "boom");
    assert_eq!(view.items.len(), 2);
    assert_eq!(view.items[0].name, "Return to command center");
    assert!(view.items[0].dismiss_on_select);
    assert_eq!(view.items[1].name, "View unsent task");
    assert_eq!(view.items[1].description.as_deref(), Some("Your newer draft has been kept in the composer."));
    assert!(!view.items[1].dismiss_on_select);
    assert_eq!(view.items[1].view_unsent_prompt.as_deref(), Some("draft"));
}

#[test]
fn agents_overview_error_without_draft_or_overview() {
    let mut unsent = None;
    let report = add_agents_overview_error(&mut unsent, true, "boom".to_string());
    assert_eq!(report.view.expect("view").items.len(), 1);

    let mut unsent = Some("draft".to_string());
    let report = add_agents_overview_error(&mut unsent, false, "boom".to_string());
    assert!(report.view.is_none());
    assert_eq!(unsent, None);
    assert_eq!(report.error_message, "boom");
}

#[test]
fn apply_to_buffer_resets_backgrounds_and_preserves_reverse() {
    let mut cells = vec![CellStyle { fg: TermColor::Reset, bg: TermColor::Red, modifier: REVERSED | BOLD }; 2];

    apply_to_buffer(&mut cells);

    assert_eq!(cells.len(), 2);
    for cell in &cells {
        assert_eq!(cell.bg, TermColor::Reset);
        assert!(cell.modifier & REVERSED != 0);
        assert!(cell.modifier & BOLD != 0);
        assert!(cell.modifier & UNDERLINED == 0);
    }
}

#[test]
fn strip_line_backgrounds_resets_line_and_span_backgrounds() {
    let line = StyledLine {
        style: TextStyle { fg: None, bg: Some(TermColor::Blue), add_modifier: 0, sub_modifier: 0 },
        spans: vec![StyledSpan {
            content: "A".to_string(),
            style: TextStyle { fg: Some(TermColor::Cyan), bg: Some(TermColor::Red), add_modifier: 0, sub_modifier: 0 },
        }],
    };

    let stripped = strip_line_backgrounds(line);

    assert_eq!(stripped.style.bg, Some(TermColor::Reset));
    assert_eq!(stripped.spans[0].style.bg, Some(TermColor::Reset));
    assert_eq!(stripped.spans[0].style.fg, Some(TermColor::Cyan));
    assert_eq!(stripped.spans[0].content, "A");
}

fn left(kind: fn(MouseButton) -> MouseEventKind, column: u16, row: u16) -> MouseEvent {
    MouseEvent { kind: kind(MouseButton::Left), column, row }
}

fn drawn_composer(area: Rect) -> ComposerMouseState {
    ComposerMouseState {
        input_enabled: true,
        history_search_active: false,
        mouse_drag_active: false,
        last_textarea_area: Some(area),
    }
}

fn lines_of(text: &str) -> Vec<Range<usize>> {
    vec![0..text.len() + 1]
}

#[test]
fn composer_ignores_clicks_before_render_and_outside_textarea() {
    let mut before_render = ComposerMouseState {
        input_enabled: true,
        history_search_active: false,
        mouse_drag_active: false,
        last_textarea_area: None,
    };
    assert_eq!(before_render.route_mouse_event(left(MouseEventKind::Down, 0, 0)), MouseRoute::Ignored);

    // The composer's text area as last drawn inside its frame.
    let textarea_area = Rect::new(4, 1, 24, 1);
    let mut textarea = TextArea::new();
    textarea.set_text_clearing_elements("hello");
    textarea.set_cursor(5);
    let mut state = drawn_composer(textarea_area);
    let route = state.route_mouse_event(left(MouseEventKind::Down, 0, 0));
    assert_eq!(route, MouseRoute::DismissSelection);
    let outside_textarea = dismiss_selection(&mut textarea);

    assert_eq!((outside_textarea.is_handled(), textarea.cursor()), (false, 5));
}

#[test]
fn clicking_outside_textarea_clears_active_selection() {
    let textarea_area = Rect::new(4, 1, 24, 1);
    let mut textarea = TextArea::new();
    textarea.set_text_clearing_elements("hello world");
    let lines = lines_of("hello world");
    let mut state = drawn_composer(textarea_area);

    for (kind, column) in
        [(MouseEventKind::Down as fn(MouseButton) -> MouseEventKind, 4), (MouseEventKind::Drag, 9), (MouseEventKind::Up, 9)]
    {
        match state.route_mouse_event(left(kind, column, 1)) {
            MouseRoute::HitTest { area, position, update } => {
                let result = state.apply_hit_test(&mut textarea, area, position, update, &lines, 0, false);
                assert!(result.outcome.is_handled());
            }
            other => panic!("expected a hit test, got {other:?}"),
        }
    }
    assert_eq!(textarea.selection_range(), Some(0..5));

    // Exclusive right edge is outside the area but still a realistic pointer position.
    let route = state.route_mouse_event(left(MouseEventKind::Down, textarea_area.right(), textarea_area.y));
    assert_eq!(route, MouseRoute::DismissSelection);
    let handled = dismiss_selection(&mut textarea);

    assert_eq!((handled, textarea.selection_range(), textarea.cursor()), (ComposerMouseOutcome::Handled, None, 5));
}

#[test]
fn dragging_selects_text_that_delete_removes() {
    let textarea_area = Rect::new(4, 1, 24, 1);
    let mut textarea = TextArea::new();
    textarea.set_text_clearing_elements("hello world");
    let lines = lines_of("hello world");
    let mut state = drawn_composer(textarea_area);
    let mut outcomes = Vec::new();

    for (kind, column) in [
        (MouseEventKind::Down as fn(MouseButton) -> MouseEventKind, textarea_area.x + 5),
        (MouseEventKind::Drag, textarea_area.x + 11),
        (MouseEventKind::Up, textarea_area.x + 11),
    ] {
        let MouseRoute::HitTest { area, position, update } = state.route_mouse_event(left(kind, column, 1)) else {
            panic!("expected a hit test");
        };
        outcomes.push(state.apply_hit_test(&mut textarea, area, position, update, &lines, 0, false).outcome);
    }

    assert_eq!(
        outcomes,
        vec![
            ComposerMouseOutcome::Handled,
            ComposerMouseOutcome::Handled,
            ComposerMouseOutcome::SelectionFinished(" world".to_string()),
        ]
    );
    assert_eq!(textarea.selection_range(), Some(5..11));
    assert!(!state.mouse_drag_active);
    assert!(textarea.delete_selection());
    assert_eq!((textarea.text().as_str(), textarea.cursor(), textarea.selection_range()), ("hello", 5, None));
}

#[test]
fn dragging_past_right_edge_selects_the_final_character() {
    let textarea_area = Rect::new(4, 1, 3, 2);
    let text = "xxx";
    let mut textarea = TextArea::new();
    textarea.set_text_clearing_elements(text);
    let lines = lines_of(text);
    let mut state = drawn_composer(textarea_area);

    for (kind, column) in [
        (MouseEventKind::Down as fn(MouseButton) -> MouseEventKind, textarea_area.x),
        (MouseEventKind::Drag, textarea_area.right()),
        (MouseEventKind::Up, textarea_area.right()),
    ] {
        let MouseRoute::HitTest { area, position, update } = state.route_mouse_event(left(kind, column, 1)) else {
            panic!("expected a hit test");
        };
        assert!(state.apply_hit_test(&mut textarea, area, position, update, &lines, 0, false).outcome.is_handled());
    }
    assert_eq!(textarea.selection_range(), Some(0..text.len()));

    assert!(textarea.delete_selection());
    assert_eq!((textarea.text().as_str(), textarea.cursor(), textarea.selection_range()), ("", 0, None));
}

#[test]
fn drags_are_clamped_to_one_column_past_the_area() {
    let textarea_area = Rect::new(4, 1, 3, 2);
    let mut state = drawn_composer(textarea_area);
    assert!(matches!(state.route_mouse_event(left(MouseEventKind::Down, 4, 1)), MouseRoute::HitTest { .. }));
    state.mouse_drag_active = true;
    assert_eq!(
        state.route_mouse_event(left(MouseEventKind::Drag, 50, 9)),
        MouseRoute::HitTest { area: textarea_area, position: Position { x: 7, y: 2 }, update: MouseSelectionUpdate::Drag }
    );
    assert_eq!(state.route_mouse_event(MouseEvent { kind: MouseEventKind::Moved, column: 5, row: 1 }), MouseRoute::Ignored);
}

#[test]
fn clicking_inside_image_placeholder_clamps_to_an_editable_edge() {
    let placeholder = "[Image #1]";
    let textarea_area = Rect::new(4, 1, 34, 1);
    let mut textarea = TextArea::new();
    textarea.set_text_clearing_elements(placeholder);
    textarea.add_element_range(0..placeholder.len()).expect("element range");
    let lines = lines_of(placeholder);
    let mut state = drawn_composer(textarea_area);

    for (column, expected_cursor) in
        [(textarea_area.x + 2, 0), (textarea_area.x + placeholder.len() as u16 - 1, placeholder.len())]
    {
        let MouseRoute::HitTest { area, position, update } = state.route_mouse_event(left(MouseEventKind::Down, column, 1))
        else {
            panic!("expected a hit test");
        };
        assert!(state.apply_hit_test(&mut textarea, area, position, update, &lines, 0, false).outcome.is_handled());
        assert_eq!(textarea.cursor(), expected_cursor);
    }
}

#[test]
fn clicking_flushes_buffered_input_before_moving_the_cursor() {
    let textarea_area = Rect::new(4, 1, 24, 1);
    let mut textarea = TextArea::new();
    textarea.insert_str("world");
    let mut state = drawn_composer(textarea_area);

    let MouseRoute::HitTest { area, position, update } =
        state.route_mouse_event(left(MouseEventKind::Down, textarea_area.x, textarea_area.y))
    else {
        panic!("expected a hit test");
    };
    // The buffered paste lands where it was typed, before the click moves the cursor.
    textarea.insert_str("hello ");
    let text = textarea.text();
    let result = state.apply_hit_test(&mut textarea, area, position, update, &lines_of(&text), 0, true);

    assert!(result.outcome.is_handled());
    assert_eq!((textarea.text().as_str(), textarea.cursor()), ("worldhello ", 0));
}

#[test]
fn release_without_drag_and_disabled_input_are_ignored() {
    let mut state = drawn_composer(Rect::new(4, 1, 24, 1));
    assert_eq!(state.route_mouse_event(left(MouseEventKind::Up, 5, 1)), MouseRoute::Ignored);
    state.input_enabled = false;
    state.mouse_drag_active = true;
    assert_eq!(state.route_mouse_event(left(MouseEventKind::Down, 5, 1)), MouseRoute::Ignored);
    assert!(!state.mouse_drag_active);
    assert_eq!(finished_selection(None), ComposerMouseOutcome::Handled);
    assert!(!ComposerMouseOutcome::Ignored.is_handled());
}

#[test]
fn drags_in_an_area_at_the_bottom_edge_clamp_with_saturation() {
    // The area reaches past the last row the coordinates can name; its bottom saturates.
    let textarea_area = Rect { x: 4, y: u16::MAX - 1, width: 3, height: 5 };
    let mut state = drawn_composer(textarea_area);
    state.mouse_drag_active = true;
    assert_eq!(
        state.route_mouse_event(left(MouseEventKind::Drag, 0, 0)),
        MouseRoute::HitTest {
            area: textarea_area,
            position: Position { x: 4, y: u16::MAX - 1 },
            update: MouseSelectionUpdate::Drag
        }
    );
    assert_eq!(
        state.route_mouse_event(left(MouseEventKind::Up, 100, u16::MAX)),
        MouseRoute::HitTest {
            area: textarea_area,
            position: Position { x: 7, y: u16::MAX - 1 },
            update: MouseSelectionUpdate::Release
        }
    );
}
