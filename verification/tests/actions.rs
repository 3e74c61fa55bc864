use inksy::actions::{default_bindings, default_keymap, redo, undo, Command};
use inksy::input::{Key, KeySet};
use inksy::keymap::execute_keymap;
use inksy::canvas::{Canvas, Object, Operation, Stroke};
use inksy::color::Srgba8;
use inksy::tools::{ModeStack, Tool};
use inksy::watched::Watched;

type Point = (i64, i64);
type TestCanvas = Canvas<Point, Point, (u32, u32), u32, u32>;
type TestStack = ModeStack<u32, Point, i32, i32, Point>;

fn shift(p: &Point, t: &Point, inverse: bool) -> Point {
    if inverse {
        (p.0 - t.0, p.1 - t.1)
    } else {
        (p.0 + t.0, p.1 + t.1)
    }
}

fn stroke(shape: u32) -> Watched<Object<Stroke<u32>, Point>> {
    Watched::new(Object { object: Stroke { color: Srgba8([0, 0, 0, 255]), shape }, placement: (0, 0), is_selected: false })
}

#[test]
fn undo_drops_a_draft_before_touching_the_canvas() {
    let mut canvas = TestCanvas::new();
    canvas.perform_operation(Operation::CommitStrokes { strokes: vec![stroke(1)] }, &shift);
    let mut stack: TestStack = ModeStack::new(Tool::Draw { current_stroke: Some(9) });
    undo(&mut stack, &mut canvas, &shift);
    assert!(!stack.is_drafting());
    assert_eq!(canvas.strokes().len(), 1);
    undo(&mut stack, &mut canvas, &shift);
    assert!(canvas.strokes().is_empty());
    redo(&mut stack, &mut canvas, &shift);
    assert_eq!(canvas.strokes().len(), 1);
}

#[test]
fn redo_drops_a_draft_too() {
    let mut canvas = TestCanvas::new();
    canvas.perform_operation(Operation::CommitStrokes { strokes: vec![stroke(1)] }, &shift);
    canvas.undo(&shift);
    let mut stack: TestStack = ModeStack::new(Tool::Select { origin: Some((1, 1)) });
    redo(&mut stack, &mut canvas, &shift);
    assert!(canvas.strokes().is_empty());
    assert!(matches!(stack.get(), Tool::Select { origin: None }));
    redo(&mut stack, &mut canvas, &shift);
    assert_eq!(canvas.strokes().len(), 1);
}

fn keys(ks: &[Key]) -> KeySet {
    let mut s = KeySet::empty();
    for k in ks {
        s.insert(*k);
    }
    s
}

#[test]
fn the_default_bindings() {
    assert_eq!(default_bindings().len(), 25);
    let mut keymap = default_keymap();
    let s = keys(&[Key::S]);
    assert_eq!(execute_keymap(&mut keymap, keys(&[Key::Control, Key::S]), s, s), vec![Command::SaveFile]);
    assert_eq!(execute_keymap(&mut keymap, keys(&[Key::Control, Key::Shift, Key::S]), s, s), vec![Command::SaveAsFile]);
    assert_eq!(execute_keymap(&mut keymap, s, s, s), vec![Command::ChooseSelectTool]);
    let z = keys(&[Key::Z]);
    // Undo repeats while Z is held.
    assert_eq!(execute_keymap(&mut keymap, z, z, KeySet::empty()), vec![Command::Undo]);
    assert_eq!(execute_keymap(&mut keymap, keys(&[Key::Shift, Key::Z]), z, z), vec![Command::Redo]);
}

#[test]
fn holding_space_pans_until_released() {
    let mut keymap = default_keymap();
    let space = keys(&[Key::Space]);
    assert_eq!(execute_keymap(&mut keymap, space, space, space), vec![Command::HoldPanTool]);
    assert_eq!(execute_keymap(&mut keymap, KeySet::empty(), KeySet::empty(), space), vec![Command::ReleasePanTool]);
    let zoom = keys(&[Key::Control, Key::Space]);
    assert_eq!(execute_keymap(&mut keymap, zoom, space, space), vec![Command::HoldZoomTool]);
    assert_eq!(execute_keymap(&mut keymap, KeySet::empty(), KeySet::empty(), zoom), vec![Command::ReleaseZoomTool]);
}
