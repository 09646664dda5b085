use tilt_paint::input::{
    mouse_tool, pen_tool, ActiveStep, PaintInputState, PenButtonKind, PointerSource, Sample,
};
use tilt_paint::tool::Tool;

type State = PaintInputState<(i32, i32), i32>;

fn sample(x: i32, y: i32, tool: Tool) -> Sample<(i32, i32)> {
    Sample { pose: (x, y), tool }
}

fn joined(step: ActiveStep<(i32, i32), i32>) -> Option<(i32, i32)> {
    match step {
        ActiveStep::Paint(last) => last.map(|s| s.pose),
        ActiveStep::Resize(_) => panic!("expected a painting step"),
    }
}

#[test]
fn physical_eraser_and_barrel_select_the_eraser() {
    assert_eq!(pen_tool(true, false), Tool::Eraser);
    assert_eq!(pen_tool(false, true), Tool::Eraser);
    assert_eq!(pen_tool(false, false), Tool::Pen);
}

#[test]
fn the_right_mouse_button_erases() {
    assert_eq!(mouse_tool(true), Tool::Eraser);
    assert_eq!(mouse_tool(false), Tool::Pen);
}

#[test]
fn labels_name_the_tool_and_the_pointer() {
    assert_eq!(Tool::Pen.label(), "PEN");
    assert_eq!(Tool::Eraser.label(), "ERASER");
    assert_eq!(PointerSource::Mouse.label(), "mouse");
    assert_eq!(PointerSource::Pen.label(), "tablet");
    assert_eq!(Tool::default(), Tool::Pen);
}

#[test]
fn a_stroke_joins_each_dab_to_the_previous_one() {
    let mut input = State::new();
    let first = sample(100, 100, Tool::Pen);
    assert_eq!(joined(input.begin_active(PointerSource::Pen, first, false, 0)), None);
    input.record_dab(PointerSource::Pen, first);
    let second = sample(108, 100, Tool::Pen);
    assert_eq!(
        joined(input.begin_active(PointerSource::Pen, second, false, 0)),
        Some((100, 100))
    );
    assert!(input.cursor_down);
    assert_eq!(input.cursor_source, PointerSource::Pen);
    assert_eq!(input.cursor.map(|s| s.pose), Some((108, 100)));
}

#[test]
fn switching_tools_or_lifting_starts_a_new_stroke() {
    let mut input = State::new();
    input.record_dab(PointerSource::Mouse, sample(5, 5, Tool::Pen));
    let eraser = sample(6, 5, Tool::Eraser);
    assert_eq!(joined(input.begin_active(PointerSource::Mouse, eraser, false, 0)), None);
    assert_eq!(input.active_tool, Tool::Eraser);
    input.record_dab(PointerSource::Mouse, eraser);
    input.end_stroke(PointerSource::Mouse);
    assert!(input.mouse_last.is_none());
    assert!(!input.cursor_down);
    assert_eq!(
        joined(input.begin_active(PointerSource::Mouse, sample(7, 5, Tool::Eraser), false, 0)),
        None
    );
}

#[test]
fn mouse_and_pen_strokes_are_separate() {
    let mut input = State::new();
    input.record_dab(PointerSource::Pen, sample(1, 1, Tool::Pen));
    assert_eq!(
        joined(input.begin_active(PointerSource::Mouse, sample(2, 2, Tool::Pen), false, 0)),
        None
    );
    input.end_stroke(PointerSource::Mouse);
    assert_eq!(input.pen_last.map(|s| s.pose), Some((1, 1)));
}

#[test]
fn shift_drags_resize_and_keep_their_anchor() {
    let mut input = State::new();
    input.record_dab(PointerSource::Pen, sample(1, 1, Tool::Pen));
    match input.begin_active(PointerSource::Pen, sample(10, 10, Tool::Pen), true, 18) {
        ActiveStep::Resize(gesture) => {
            assert_eq!(gesture.anchor, 18);
            assert_eq!(gesture.tool, Tool::Pen);
            assert_eq!(gesture.source, PointerSource::Pen);
        }
        ActiveStep::Paint(_) => panic!("shift must resize"),
    }
    assert!(input.pen_last.is_none());
    match input.begin_active(PointerSource::Pen, sample(20, 10, Tool::Pen), true, 99) {
        ActiveStep::Resize(gesture) => assert_eq!(gesture.anchor, 18),
        ActiveStep::Paint(_) => panic!("shift must resize"),
    }
    input.release_sizing();
    assert!(input.sizing.is_none());
    assert_eq!(
        joined(input.begin_active(PointerSource::Pen, sample(30, 10, Tool::Pen), false, 0)),
        None
    );
}

#[test]
fn painting_without_shift_ends_the_pointers_resize_gesture() {
    let mut input = State::new();
    input.begin_active(PointerSource::Mouse, sample(0, 0, Tool::Eraser), true, 34);
    assert!(input.sizing.is_some());
    assert_eq!(
        joined(input.begin_active(PointerSource::Mouse, sample(5, 0, Tool::Eraser), false, 0)),
        None
    );
    assert!(input.sizing.is_none());
}

#[test]
fn pen_contact_drives_active_samples_and_release_hovers() {
    let mut input = State::new();
    input.pen_entered(Some((3, 3)), false);
    assert_eq!(input.cursor_source, PointerSource::Pen);
    assert!(!input.cursor_down);
    let pressed = input.pen_button(PenButtonKind::Contact, true, Some((4, 4)), false);
    assert_eq!(pressed.map(|s| (s.pose, s.tool)), Some(((4, 4), Tool::Pen)));
    assert!(input.pen_contact);
    let moved = input.pen_moved((5, 5), false, false);
    assert_eq!(moved.map(|s| s.pose), Some((5, 5)));
    input.record_dab(PointerSource::Pen, moved.unwrap());
    let released = input.pen_button(PenButtonKind::Contact, false, Some((6, 6)), false);
    assert!(released.is_none());
    assert!(!input.pen_contact);
    assert!(input.pen_last.is_none());
    assert_eq!(input.cursor.map(|s| s.pose), Some((6, 6)));
    assert!(!input.cursor_down);
}

#[test]
fn hovering_pen_moves_follow_the_cursor_until_pressure_arrives() {
    let mut input = State::new();
    assert!(input.pen_moved((1, 1), false, false).is_none());
    assert_eq!(input.cursor.map(|s| s.pose), Some((1, 1)));
    let active = input.pen_moved((2, 2), true, true);
    assert_eq!(active.map(|s| s.tool), Some(Tool::Eraser));
}

#[test]
fn the_barrel_button_switches_to_the_eraser_and_breaks_the_stroke() {
    let mut input = State::new();
    input.pen_button(PenButtonKind::Contact, true, Some((0, 0)), false);
    input.record_dab(PointerSource::Pen, sample(0, 0, Tool::Pen));
    let active = input.pen_button(PenButtonKind::Barrel, true, Some((1, 0)), false);
    assert_eq!(active.map(|s| s.tool), Some(Tool::Eraser));
    assert!(input.pen_barrel);
    assert!(input.pen_last.is_none());
    input.pen_left();
    assert!(!input.pen_barrel);
    assert!(!input.pen_contact);
    assert!(input.cursor.is_none());
}

#[test]
fn mouse_moves_paint_while_held_and_hover_otherwise() {
    let mut input = State::new();
    let active = input.mouse_moved((9, 9), true, true);
    assert_eq!(active.map(|s| s.tool), Some(Tool::Eraser));
    assert!(input.cursor.is_none());
    assert!(input.mouse_moved((10, 9), false, false).is_none());
    assert_eq!(input.cursor.map(|s| (s.pose, s.tool)), Some(((10, 9), Tool::Pen)));
    input.cursor_left();
    assert!(input.cursor.is_none());
}

#[test]
fn forgetting_strokes_clears_both_pointers() {
    let mut input = State::new();
    input.record_dab(PointerSource::Mouse, sample(1, 1, Tool::Pen));
    input.record_dab(PointerSource::Pen, sample(2, 2, Tool::Pen));
    input.forget_strokes();
    assert!(input.mouse_last.is_none());
    assert!(input.pen_last.is_none());
}

#[test]
fn a_click_without_a_move_paints_one_dab_where_the_mouse_was() {
    let mut input = State::new();
    input.record_dab(PointerSource::Mouse, sample(1, 1, Tool::Pen));
    input.mouse_frame_start(true);
    assert!(input.mouse_last.is_none());
    let dab = input.click_dab(true, true, false, Some((4, 4)), true);
    assert_eq!(dab.map(|s| (s.pose, s.tool)), Some(((4, 4), Tool::Eraser)));
    assert!(input.click_dab(true, true, true, Some((4, 4)), true).is_none());
    assert!(input.click_dab(false, true, false, Some((4, 4)), true).is_none());
    assert!(input.click_dab(true, true, false, None, true).is_none());
}

#[test]
fn releasing_the_mouse_ends_its_stroke() {
    let mut input = State::new();
    input.record_dab(PointerSource::Mouse, sample(1, 1, Tool::Pen));
    input.mouse_frame_end(false, true);
    assert!(input.mouse_last.is_some());
    input.mouse_frame_end(true, false);
    assert!(input.mouse_last.is_none());
}
