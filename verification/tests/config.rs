use inksy::config::{contains_keyword_in_parentheses, parse_kdl_integer_array, Config};

#[test]
fn integer_arrays_need_exactly_n_bytes() {
    assert_eq!(parse_kdl_integer_array::<3>(&vec![Some(1), Some(2), Some(255)]), Some([1, 2, 255]));
    assert_eq!(parse_kdl_integer_array::<3>(&vec![Some(1), Some(2)]), None);
    assert_eq!(parse_kdl_integer_array::<3>(&vec![Some(1), Some(2), Some(3), Some(4)]), None);
    assert_eq!(parse_kdl_integer_array::<3>(&vec![Some(1), None, Some(3)]), None);
    assert_eq!(parse_kdl_integer_array::<3>(&vec![Some(1), Some(256), Some(3)]), None);
    assert_eq!(parse_kdl_integer_array::<3>(&vec![Some(-1), Some(2), Some(3)]), None);
    assert_eq!(parse_kdl_integer_array::<0>(&vec![]), Some([]));
}

#[test]
fn built_in_settings() {
    let config = Config::with_stroke_radius(4u32);
    assert_eq!(config.default_canvas_color.0, [0x12, 0x12, 0x12]);
    assert_eq!(config.default_stroke_color.0, [0xff, 0xff, 0xff]);
    assert_eq!(config.default_stroke_radius, 4);
}

#[test]
fn settings_from_arguments_fall_back_on_defaults() {
    let config = Config::from_arguments(&vec![Some(1), Some(2), Some(3)], &vec![Some(300)], None, Config::with_stroke_radius(4u32));
    assert_eq!(config.default_canvas_color.0, [1, 2, 3]);
    assert_eq!(config.default_stroke_color.0, [0xff, 0xff, 0xff]);
    assert_eq!(config.default_stroke_radius, 4);
    let config = Config::from_arguments(&vec![], &vec![Some(7), Some(8), Some(9)], Some(2u32), Config::with_stroke_radius(4u32));
    assert_eq!(config.default_canvas_color.0, [0x12, 0x12, 0x12]);
    assert_eq!(config.default_stroke_color.0, [7, 8, 9]);
    assert_eq!(config.default_stroke_radius, 2);
}

#[test]
fn settings_from_kdl_text() {
    let text = "default-canvas-color 10 20 30\ndefault-stroke-color 40 50 60\n";
    let config = Config::from_kdl_text(text, Some(3u32), Config::with_stroke_radius(4u32)).expect("valid KDL");
    assert_eq!(config.default_canvas_color.0, [10, 20, 30]);
    assert_eq!(config.default_stroke_color.0, [40, 50, 60]);
    assert_eq!(config.default_stroke_radius, 3);
}

#[test]
fn kdl_text_with_bad_or_missing_colors() {
    let text = "default-canvas-color 10 20\n";
    let config = Config::from_kdl_text(text, None, Config::with_stroke_radius(4u32)).expect("valid KDL");
    assert_eq!(config.default_canvas_color.0, [0x12, 0x12, 0x12]);
    assert_eq!(config.default_stroke_color.0, [0xff, 0xff, 0xff]);
    assert_eq!(config.default_stroke_radius, 4);
    let text = "default-canvas-color \"red\" 1 2\n";
    let config = Config::from_kdl_text(text, None, Config::with_stroke_radius(4u32)).expect("valid KDL");
    assert_eq!(config.default_canvas_color.0, [0x12, 0x12, 0x12]);
}

#[test]
fn text_that_is_not_kdl_gives_nothing() {
    assert!(Config::from_kdl_text("default-canvas-color {", None, Config::with_stroke_radius(4u32)).is_none());
}

#[test]
fn keywords_in_parentheses_are_found() {
    assert!(contains_keyword_in_parentheses("(true)"));
    assert!(contains_keyword_in_parentheses("(null)x"));
    assert!(contains_keyword_in_parentheses("node (false)1"));
    assert!(contains_keyword_in_parentheses("a (true"));
    assert!(!contains_keyword_in_parentheses("(trueish)node 1"));
    assert!(!contains_keyword_in_parentheses("node true false null"));
    assert!(!contains_keyword_in_parentheses("(tru)"));
    assert!(!contains_keyword_in_parentheses(""));
}

#[test]
fn kdl_text_with_a_keyword_annotation_gives_nothing() {
    let default = Config::with_stroke_radius(4u32);
    assert!(Config::from_kdl_text("(true)", None, default).is_none());
    let default = Config::with_stroke_radius(4u32);
    assert!(Config::from_kdl_text("(null)x", None, default).is_none());
    let default = Config::with_stroke_radius(4u32);
    let config = Config::from_kdl_text("default-canvas-color 1 2 3\ndefault-stroke-color 4 5 6\n", None, default).unwrap();
    assert_eq!(config.default_canvas_color.0, [1, 2, 3]);
}
