use inksy::tools::{ColorSelectionPart, DragPhase, ModeStack, PanOrigin, Tool, TransientModeSwitch};

type TestTool = Tool<u32, (i32, i32), i32, i32, (i32, i32)>;
type TestStack = ModeStack<u32, (i32, i32), i32, i32, (i32, i32)>;

fn is_draw(t: &TestTool) -> bool {
    matches!(t, Tool::Draw { .. })
}

#[test]
fn held_tool_is_used_until_released() {
    let mut stack: TestStack = ModeStack::new(Tool::Draw { current_stroke: None });
    assert!(is_draw(stack.get()));
    stack.switch_transient(TransientModeSwitch::Pan { should_pan: true });
    assert!(matches!(stack.get(), Tool::Pan { origin: None }));
    assert!(is_draw(&stack.base_mode));
    // Asking for the same held tool again keeps its state.
    if let Tool::Pan { origin } = stack.get_mut() {
        *origin = Some(PanOrigin { cursor: (1, 1), position: (2, 2) });
    }
    stack.switch_transient(TransientModeSwitch::Pan { should_pan: true });
    assert!(matches!(stack.get(), Tool::Pan { origin: Some(_) }));
    // Releasing another kind does nothing.
    stack.switch_transient(TransientModeSwitch::Zoom { should_zoom: false });
    assert!(matches!(stack.get(), Tool::Pan { .. }));
    stack.switch_transient(TransientModeSwitch::Pan { should_pan: false });
    assert!(is_draw(stack.get()));
    assert!(stack.transient_mode.is_none());
}

#[test]
fn color_picker_is_held_at_a_point() {
    let mut stack: TestStack = ModeStack::new(Tool::Select { origin: None });
    stack.switch_transient(TransientModeSwitch::Color { center: Some((5, 6)) });
    assert!(matches!(stack.get(), Tool::PickColor { cursor_physical_origin: (5, 6), part: None }));
    stack.switch_transient(TransientModeSwitch::Color { center: None });
    assert!(matches!(stack.get(), Tool::Select { origin: None }));
}

#[test]
fn drafting_and_discarding() {
    let mut stack: TestStack = ModeStack::new(Tool::Draw { current_stroke: None });
    assert!(!stack.is_drafting());
    if let Tool::Draw { current_stroke } = stack.get_mut() {
        *current_stroke = Some(42);
    }
    assert!(stack.is_drafting());
    assert_eq!(stack.current_stroke(), Some(&42));
    stack.discard_draft();
    assert!(!stack.is_drafting());
    assert_eq!(stack.current_stroke(), None);
}

#[test]
fn switching_tools_discards_transformation_drafts() {
    let mut stack: TestStack = ModeStack::new(Tool::Move { origin: Some((1, 1)) });
    let _ = stack.discarded_transformation_draft.read();
    stack.switch_move();
    assert!(matches!(stack.base_mode, Tool::Move { origin: Some((1, 1)) }));
    assert_eq!(stack.discarded_transformation_draft.read_if_dirty(), None);
    stack.switch_rotate();
    assert!(matches!(stack.base_mode, Tool::Rotate { origin: None }));
    assert_eq!(stack.discarded_transformation_draft.read_if_dirty(), Some(&()));
    stack.switch_resize();
    assert!(matches!(stack.base_mode, Tool::Resize { origin: None }));
    stack.switch_draw();
    assert!(is_draw(&stack.base_mode));
    stack.switch_select();
    assert!(matches!(stack.base_mode, Tool::Select { origin: None }));
    let _ = stack.discarded_transformation_draft.read();
    stack.invalidate_base_transformation_draft();
    assert_eq!(stack.discarded_transformation_draft.read_if_dirty(), None);
}

#[test]
fn drag_phases_of_a_drawing_tool() {
    let mut stack: TestStack = ModeStack::new(Tool::Draw { current_stroke: None });
    assert_eq!(stack.drag_phase(false, false), DragPhase::Idle);
    assert_eq!(stack.drag_phase(true, false), DragPhase::Idle);
    assert_eq!(stack.drag_phase(true, true), DragPhase::Start);
    if let Tool::Draw { current_stroke } = stack.get_mut() {
        *current_stroke = Some(1);
    }
    assert_eq!(stack.drag_phase(true, false), DragPhase::Hold);
    assert_eq!(stack.drag_phase(false, true), DragPhase::Commit);
}

#[test]
fn drag_phases_of_view_tools() {
    let mut stack: TestStack = ModeStack::new(Tool::Zoom { origin: None });
    // View tools start on any press and end without committing.
    assert_eq!(stack.drag_phase(true, false), DragPhase::Start);
    stack.switch_transient(TransientModeSwitch::Pan { should_pan: true });
    if let Tool::Pan { origin } = stack.get_mut() {
        *origin = Some(PanOrigin { cursor: (0, 0), position: (0, 0) });
    }
    assert_eq!(stack.drag_phase(true, false), DragPhase::Hold);
    assert_eq!(stack.drag_phase(false, true), DragPhase::Release);
}

#[test]
fn drag_phases_of_the_color_picker() {
    let mut stack: TestStack = ModeStack::new(Tool::PickColor { cursor_physical_origin: (0, 0), part: None });
    assert_eq!(stack.drag_phase(true, false), DragPhase::Idle);
    assert_eq!(stack.drag_phase(true, true), DragPhase::Start);
    if let Tool::PickColor { part, .. } = stack.get_mut() {
        *part = Some(ColorSelectionPart::Hue);
    }
    assert_eq!(stack.drag_phase(false, false), DragPhase::Release);
}
