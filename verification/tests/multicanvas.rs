use inksy::multicanvas::Multicanvas;
use inksy::tools::Tool;

type TestMulticanvas = Multicanvas<String, u32, (i32, i32), i32, i32, (i32, i32)>;

#[test]
fn starts_empty_with_the_draw_tool() {
    let m = TestMulticanvas::new();
    assert!(m.canvases.is_empty());
    assert!(m.current_canvas().is_none());
    assert!(!m.is_debug_mode_on);
    assert!(matches!(m.mode_stack.get(), Tool::Draw { current_stroke: None }));
}

#[test]
fn current_canvas_follows_the_index() {
    let mut m = TestMulticanvas::new();
    m.canvases.push(String::from("first"));
    m.canvases.push(String::from("second"));
    assert!(m.current_canvas().is_none());
    m.current_canvas_index = Some(1);
    assert_eq!(m.current_canvas().map(|c| c.as_str()), Some("second"));
    m.current_canvas_mut().unwrap().push('!');
    assert_eq!(m.canvases[1], "second!");
    m.current_canvas_index = Some(2);
    assert!(m.current_canvas().is_none());
    assert!(m.current_canvas_mut().is_none());
}
