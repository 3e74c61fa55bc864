use inksy::render::{plan_render_commands, plan_stroke_upload, DrawKind, RenderCommand};

#[test]
fn nothing_to_draw() {
    assert!(plan_render_commands(&vec![]).is_empty());
}

#[test]
fn cards_and_selectors_get_consecutive_instances() {
    let kinds = vec![DrawKind::Card, DrawKind::Text, DrawKind::ColorSelector, DrawKind::Card, DrawKind::ColorSelector];
    assert_eq!(
        plan_render_commands(&kinds),
        vec![
            RenderCommand::Card { start: 0, end: 1 },
            RenderCommand::ColorRing { start: 0, end: 1 },
            RenderCommand::ColorTrigon { start: 0, end: 1 },
            RenderCommand::Card { start: 1, end: 2 },
            RenderCommand::ColorRing { start: 1, end: 2 },
            RenderCommand::ColorTrigon { start: 1, end: 2 },
        ]
    );
}

#[test]
fn text_alone_needs_no_commands() {
    assert!(plan_render_commands(&vec![DrawKind::Text, DrawKind::Text]).is_empty());
}

#[test]
fn stroke_upload_keeps_the_clean_strokes() {
    let vertex_counts = vec![3, 4, 5];
    let index_counts = vec![6, 9, 3];
    let plan = plan_stroke_upload(&vertex_counts, &index_counts, 1);
    assert_eq!(plan.extension_offset, 1);
    assert_eq!(plan.vertex_offset, 3);
    assert_eq!(plan.index_offset, 6);
    assert_eq!(plan.index_bases, vec![3, 7]);
    assert_eq!(plan.index_end, 18);
    let all = plan_stroke_upload(&vertex_counts, &index_counts, 0);
    assert_eq!((all.vertex_offset, all.index_offset), (0, 0));
    assert_eq!(all.index_bases, vec![0, 3, 7]);
    let none = plan_stroke_upload(&vertex_counts, &index_counts, 3);
    assert_eq!((none.vertex_offset, none.index_offset), (12, 18));
    assert!(none.index_bases.is_empty());
    assert_eq!(none.index_end, 18);
}
