use inksy::canvas::{Canvas, Image, Object, Operation, Stroke};
use inksy::color::Srgba8;
use inksy::watched::Watched;

type Point = (i64, i64);
type TestCanvas = Canvas<Point, Point, (u32, u32), u32, u32>;

fn shift(p: &Point, t: &Point, inverse: bool) -> Point {
    if inverse {
        (p.0 - t.0, p.1 - t.1)
    } else {
        (p.0 + t.0, p.1 + t.1)
    }
}

fn stroke(shape: u32, x: i64) -> Watched<Object<Stroke<u32>, Point>> {
    Watched::new(Object {
        object: Stroke { color: Srgba8([1, 2, 3, 255]), shape },
        placement: (x, 0),
        is_selected: false,
    })
}

fn image(texture_index: usize, x: i64) -> Watched<Object<Image<(u32, u32)>, Point>> {
    Watched::new(Object {
        object: Image { texture_index, dimensions: (4, 4) },
        placement: (x, 0),
        is_selected: false,
    })
}

fn shapes(canvas: &TestCanvas) -> Vec<u32> {
    canvas.strokes().iter().map(|s| s.as_ref().object.shape).collect()
}

fn placements(canvas: &TestCanvas) -> Vec<Point> {
    canvas.strokes().iter().map(|s| s.as_ref().placement).collect()
}

#[test]
fn new_canvas_is_empty_and_unsaved() {
    let canvas = TestCanvas::new();
    assert!(canvas.images().is_empty());
    assert!(canvas.strokes().is_empty());
    assert!(canvas.textures().is_empty());
    assert!(!canvas.is_saved());
    assert_eq!(canvas.retraction_count_at_save(), None);
}

#[test]
fn canvas_from_file_is_saved() {
    let canvas = TestCanvas::from_file(vec![image(0, 1)], vec![stroke(7, 2)], vec![9]);
    assert!(canvas.is_saved());
    assert_eq!(canvas.images().len(), 1);
    assert_eq!(shapes(&canvas), vec![7]);
    assert_eq!(canvas.textures(), &[9]);
}

#[test]
fn commit_then_undo_then_redo() {
    let mut canvas = TestCanvas::new();
    canvas.perform_operation(Operation::CommitStrokes { strokes: vec![stroke(1, 0), stroke(2, 0)] }, &shift);
    assert_eq!(shapes(&canvas), vec![1, 2]);
    canvas.undo(&shift);
    assert!(canvas.strokes().is_empty());
    canvas.redo(&shift);
    // Undoing a commit pops the strokes one by one, so they come back in
    // reverse order.
    assert_eq!(shapes(&canvas), vec![2, 1]);
    canvas.undo(&shift);
    assert!(canvas.strokes().is_empty());
}

#[test]
fn undo_and_redo_with_empty_history_do_nothing() {
    let mut canvas = TestCanvas::from_file(vec![], vec![stroke(5, 0)], vec![]);
    canvas.undo(&shift);
    canvas.redo(&shift);
    assert_eq!(shapes(&canvas), vec![5]);
    assert!(canvas.is_saved());
}

#[test]
fn delete_then_undo_restores_objects_in_place() {
    let mut canvas = TestCanvas::from_file(vec![image(0, 0), image(0, 1)], vec![stroke(1, 0), stroke(2, 0), stroke(3, 0)], vec![0]);
    let op = Operation::DeleteObjects { monotone_image_indices: vec![1], monotone_stroke_indices: vec![0, 2] };
    assert!(canvas.can_perform(&op));
    canvas.perform_operation(op, &shift);
    assert_eq!(shapes(&canvas), vec![2]);
    assert_eq!(canvas.images().len(), 1);
    assert!(!canvas.is_saved());
    canvas.undo(&shift);
    assert_eq!(shapes(&canvas), vec![1, 2, 3]);
    assert_eq!(canvas.images().len(), 2);
    assert_eq!(canvas.images()[1].as_ref().placement, (1, 0));
    assert!(canvas.is_saved());
    canvas.redo(&shift);
    assert_eq!(shapes(&canvas), vec![2]);
}

#[test]
fn deletion_must_name_objects_still_there() {
    let canvas = TestCanvas::from_file(vec![], vec![stroke(1, 0), stroke(2, 0)], vec![]);
    assert!(!canvas.can_perform(&Operation::DeleteObjects { monotone_image_indices: vec![], monotone_stroke_indices: vec![1, 1] }));
    assert!(canvas.can_perform(&Operation::DeleteObjects { monotone_image_indices: vec![], monotone_stroke_indices: vec![0, 0] }));
    assert!(canvas.can_perform(&Operation::DeleteObjects { monotone_image_indices: vec![], monotone_stroke_indices: vec![0, 1] }));
    assert!(!canvas.can_perform(&Operation::DeleteObjects { monotone_image_indices: vec![], monotone_stroke_indices: vec![1, 0] }));
    assert!(!canvas.can_perform(&Operation::DeleteObjects { monotone_image_indices: vec![], monotone_stroke_indices: vec![2] }));
    assert!(!canvas.can_perform(&Operation::DeleteObjects { monotone_image_indices: vec![0], monotone_stroke_indices: vec![] }));
    assert!(canvas.can_perform(&Operation::DeleteObjects { monotone_image_indices: vec![], monotone_stroke_indices: vec![0, 1] }));
    assert!(canvas.can_perform(&Operation::CommitStrokes { strokes: vec![] }));
}

#[test]
fn recolor_then_undo_restores_colors() {
    let mut canvas = TestCanvas::from_file(vec![], vec![stroke(1, 0), stroke(2, 0)], vec![]);
    canvas.perform_operation(Operation::RecolorStrokes { indices: vec![1, 5], new_color: Srgba8([9, 9, 9, 9]) }, &shift);
    assert_eq!(canvas.strokes()[0].as_ref().object.color.0, [1, 2, 3, 255]);
    assert_eq!(canvas.strokes()[1].as_ref().object.color.0, [9, 9, 9, 9]);
    canvas.undo(&shift);
    assert_eq!(canvas.strokes()[1].as_ref().object.color.0, [1, 2, 3, 255]);
    canvas.redo(&shift);
    assert_eq!(canvas.strokes()[1].as_ref().object.color.0, [9, 9, 9, 9]);
}

#[test]
fn recolor_twice_with_a_repeated_index_is_not_undone_exactly() {
    let mut canvas = TestCanvas::from_file(vec![], vec![stroke(1, 0)], vec![]);
    canvas.perform_operation(Operation::RecolorStrokes { indices: vec![0, 0], new_color: Srgba8([9, 9, 9, 9]) }, &shift);
    canvas.undo(&shift);
    // The second recorded colour is the new colour, and it is restored last.
    assert_eq!(canvas.strokes()[0].as_ref().object.color.0, [9, 9, 9, 9]);
}

#[test]
fn transform_then_undo_moves_back() {
    let mut canvas = TestCanvas::from_file(vec![image(0, 10)], vec![stroke(1, 0), stroke(2, 5)], vec![0]);
    canvas.perform_operation(
        Operation::TransformObjects { image_indices: vec![0], stroke_indices: vec![1, 7], transformation: (3, 4) },
        &shift,
    );
    assert_eq!(placements(&canvas), vec![(0, 0), (8, 4)]);
    assert_eq!(canvas.images()[0].as_ref().placement, (13, 4));
    canvas.undo(&shift);
    assert_eq!(placements(&canvas), vec![(0, 0), (5, 0)]);
    assert_eq!(canvas.images()[0].as_ref().placement, (10, 0));
}

#[test]
fn performing_discards_what_could_be_redone() {
    let mut canvas = TestCanvas::new();
    canvas.perform_operation(Operation::CommitStrokes { strokes: vec![stroke(1, 0)] }, &shift);
    canvas.undo(&shift);
    canvas.perform_operation(Operation::CommitStrokes { strokes: vec![stroke(2, 0)] }, &shift);
    canvas.redo(&shift);
    assert_eq!(shapes(&canvas), vec![2]);
}

#[test]
fn save_point_follows_the_history() {
    let mut canvas = TestCanvas::new();
    canvas.perform_operation(Operation::CommitStrokes { strokes: vec![stroke(1, 0)] }, &shift);
    canvas.set_retraction_count_at_save();
    assert!(canvas.is_saved());
    assert_eq!(canvas.retraction_count_at_save(), Some(1));
    canvas.perform_operation(Operation::CommitStrokes { strokes: vec![stroke(2, 0)] }, &shift);
    assert!(!canvas.is_saved());
    canvas.undo(&shift);
    assert!(canvas.is_saved());
    canvas.undo(&shift);
    assert!(!canvas.is_saved());
    // A new operation from before the save point makes it unreachable.
    canvas.perform_operation(Operation::CommitStrokes { strokes: vec![stroke(3, 0)] }, &shift);
    assert_eq!(canvas.retraction_count_at_save(), None);
    assert!(!canvas.is_saved());
}

#[test]
fn select_all_and_selected_indices() {
    let mut canvas = TestCanvas::from_file(vec![image(0, 0)], vec![stroke(1, 0), stroke(2, 0)], vec![0]);
    assert!(canvas.selected_stroke_indices().is_empty());
    canvas.select_all(true);
    assert_eq!(canvas.selected_stroke_indices(), vec![0, 1]);
    assert_eq!(canvas.selected_image_indices(), vec![0]);
    canvas.stroke_mut(0).as_mut().is_selected = false;
    assert_eq!(canvas.selected_stroke_indices(), vec![1]);
    canvas.select_all(false);
    assert!(canvas.selected_image_indices().is_empty());
}

#[test]
fn transform_selection_moves_only_selected_objects() {
    let mut canvas = TestCanvas::from_file(vec![], vec![stroke(1, 0), stroke(2, 0)], vec![]);
    assert!(!canvas.transform_selection((1, 1), &shift));
    assert_eq!(placements(&canvas), vec![(0, 0), (0, 0)]);
    canvas.stroke_mut(1).as_mut().is_selected = true;
    assert!(canvas.transform_selection((1, 1), &shift));
    assert_eq!(placements(&canvas), vec![(0, 0), (1, 1)]);
    canvas.undo(&shift);
    assert_eq!(placements(&canvas), vec![(0, 0), (0, 0)]);
}

#[test]
fn invalidate_marks_everything_dirty() {
    let mut canvas = TestCanvas::from_file(vec![image(0, 0)], vec![stroke(1, 0)], vec![0]);
    canvas.set_base_dirty_stroke_index(1);
    assert_eq!(canvas.base_dirty_stroke_index(), 1);
    canvas.invalidate();
    assert_eq!(canvas.base_dirty_stroke_index(), 0);
    assert_eq!(canvas.base_dirty_image_index(), 0);
}

#[test]
fn textures_and_their_use() {
    let mut canvas = TestCanvas::from_file(vec![image(1, 0)], vec![], vec![]);
    assert_eq!(canvas.push_texture(10), 0);
    assert_eq!(canvas.push_texture(11), 1);
    assert_eq!(canvas.push_texture(12), 2);
    assert_eq!(canvas.referenced_textures(), vec![false, true, false]);
    canvas.textures_mut().push(13);
    assert_eq!(canvas.textures().len(), 4);
}

#[test]
fn delete_selection_needs_a_selected_stroke() {
    let mut canvas = TestCanvas::from_file(vec![image(0, 0)], vec![stroke(1, 0), stroke(2, 0)], vec![0]);
    canvas.image_mut(0).as_mut().is_selected = true;
    // Only an image is selected: nothing is deleted.
    assert!(!canvas.delete_selection(&shift));
    assert_eq!(canvas.images().len(), 1);
    canvas.stroke_mut(1).as_mut().is_selected = true;
    assert!(canvas.delete_selection(&shift));
    assert!(canvas.images().is_empty());
    assert_eq!(shapes(&canvas), vec![1]);
    canvas.undo(&shift);
    assert_eq!(canvas.images().len(), 1);
    assert_eq!(shapes(&canvas), vec![1, 2]);
}

#[test]
fn recolor_selection_recolors_selected_strokes() {
    let mut canvas = TestCanvas::from_file(vec![], vec![stroke(1, 0), stroke(2, 0)], vec![]);
    assert!(!canvas.recolor_selection(Srgba8([5, 5, 5, 5]), &shift));
    canvas.stroke_mut(0).as_mut().is_selected = true;
    assert!(canvas.recolor_selection(Srgba8([5, 5, 5, 5]), &shift));
    assert_eq!(canvas.strokes()[0].as_ref().object.color.0, [5, 5, 5, 5]);
    assert_eq!(canvas.strokes()[1].as_ref().object.color.0, [1, 2, 3, 255]);
}

fn selected(canvas: &TestCanvas) -> (Vec<bool>, Vec<bool>) {
    (
        canvas.images().iter().map(|i| i.as_ref().is_selected).collect(),
        canvas.strokes().iter().map(|s| s.as_ref().is_selected).collect(),
    )
}

#[test]
fn a_selection_gesture_replaces_or_toggles_the_selection() {
    let mut canvas = TestCanvas::from_file(vec![image(0, 0), image(0, 1)], vec![stroke(1, 0), stroke(2, 0), stroke(3, 0)], vec![0]);
    canvas.select_hits(&vec![true, false], &vec![false, true, true], false);
    assert_eq!(selected(&canvas), (vec![true, false], vec![false, true, true]));
    // Aggregating toggles what was hit and keeps the rest.
    canvas.select_hits(&vec![true, true], &vec![true, true, false], true);
    assert_eq!(selected(&canvas), (vec![false, true], vec![true, false, true]));
    // Not aggregating: what was not hit is deselected.
    canvas.select_hits(&vec![false, false], &vec![false, false, false], false);
    assert_eq!(selected(&canvas), (vec![false, false], vec![false, false, false]));
}

fn clean_all(canvas: &mut TestCanvas) {
    for i in 0..canvas.strokes().len() {
        canvas.stroke_mut(i).read();
    }
    let n = canvas.strokes().len();
    canvas.set_base_dirty_stroke_index(n);
}

fn dirty(canvas: &mut TestCanvas, i: usize) -> bool {
    let was_dirty = canvas.stroke_mut(i).read_if_dirty().is_some();
    if was_dirty {
        canvas.stroke_mut(i).invalidate();
    }
    was_dirty
}

#[test]
fn undo_and_redo_keep_clean_strokes_below_the_dirty_index() {
    let mut canvas = TestCanvas::from_file(vec![], vec![stroke(1, 0), stroke(2, 0), stroke(3, 0), stroke(4, 0)], vec![]);
    clean_all(&mut canvas);
    canvas.perform_operation(Operation::DeleteObjects { monotone_image_indices: vec![], monotone_stroke_indices: vec![2] }, &shift);
    assert_eq!(canvas.base_dirty_stroke_index(), 2);
    clean_all(&mut canvas);
    assert_eq!(canvas.base_dirty_stroke_index(), 3);
    canvas.undo(&shift);
    // The stroke comes back at position 2, so only what lies below stays clean.
    assert_eq!(canvas.base_dirty_stroke_index(), 2);
    assert_eq!(shapes(&canvas), vec![1, 2, 3, 4]);
    assert!(!dirty(&mut canvas, 0));
    assert!(!dirty(&mut canvas, 1));
    assert!(dirty(&mut canvas, 2));
    clean_all(&mut canvas);
    canvas.redo(&shift);
    assert_eq!(canvas.base_dirty_stroke_index(), 2);
    assert_eq!(shapes(&canvas), vec![1, 2, 4]);
    assert!(!dirty(&mut canvas, 0));
    assert!(!dirty(&mut canvas, 1));
}

#[test]
fn undoing_a_recolor_below_the_dirty_index_marks_the_stroke_dirty() {
    let mut canvas = TestCanvas::from_file(vec![], vec![stroke(1, 0), stroke(2, 0)], vec![]);
    canvas.perform_operation(Operation::RecolorStrokes { indices: vec![0], new_color: Srgba8([9, 9, 9, 9]) }, &shift);
    clean_all(&mut canvas);
    canvas.undo(&shift);
    assert_eq!(canvas.base_dirty_stroke_index(), 2);
    assert_eq!(canvas.strokes()[0].as_ref().object.color.0, [1, 2, 3, 255]);
    assert!(dirty(&mut canvas, 0));
    assert!(!dirty(&mut canvas, 1));
}

#[test]
fn redo_after_undo_of_a_recolor_gives_the_strokes_back() {
    let mut canvas = TestCanvas::from_file(vec![], vec![stroke(1, 0), stroke(2, 0), stroke(3, 0)], vec![]);
    canvas.perform_operation(Operation::RecolorStrokes { indices: vec![2, 0], new_color: Srgba8([9, 9, 9, 9]) }, &shift);
    let before: Vec<[u8; 4]> = canvas.strokes().iter().map(|s| s.as_ref().object.color.0).collect();
    canvas.undo(&shift);
    canvas.redo(&shift);
    let after: Vec<[u8; 4]> = canvas.strokes().iter().map(|s| s.as_ref().object.color.0).collect();
    assert_eq!(before, vec![[9, 9, 9, 9], [1, 2, 3, 255], [9, 9, 9, 9]]);
    assert_eq!(after, before);
    assert_eq!(shapes(&canvas), vec![1, 2, 3]);
}

#[test]
fn redo_after_undo_of_a_transformation_gives_the_placements_back() {
    let mut canvas = TestCanvas::from_file(vec![image(0, 10)], vec![stroke(1, 0), stroke(2, 5)], vec![0]);
    canvas.perform_operation(
        Operation::TransformObjects { image_indices: vec![0], stroke_indices: vec![1, 1], transformation: (3, 4) },
        &shift,
    );
    assert_eq!(placements(&canvas), vec![(0, 0), (11, 8)]);
    canvas.undo(&shift);
    assert_eq!(placements(&canvas), vec![(0, 0), (5, 0)]);
    canvas.redo(&shift);
    assert_eq!(placements(&canvas), vec![(0, 0), (11, 8)]);
    assert_eq!(canvas.images()[0].as_ref().placement, (13, 4));
}

#[test]
fn undo_from_the_saved_state_then_redo_is_saved_again() {
    let mut canvas = TestCanvas::new();
    canvas.perform_operation(Operation::CommitStrokes { strokes: vec![stroke(1, 0)] }, &shift);
    canvas.perform_operation(Operation::CommitStrokes { strokes: vec![stroke(2, 0)] }, &shift);
    canvas.set_retraction_count_at_save();
    canvas.undo(&shift);
    assert!(!canvas.is_saved());
    canvas.redo(&shift);
    assert!(canvas.is_saved());
}

#[test]
fn a_lost_save_point_stays_lost() {
    let mut canvas = TestCanvas::new();
    canvas.perform_operation(Operation::CommitStrokes { strokes: vec![stroke(1, 0)] }, &shift);
    canvas.set_retraction_count_at_save();
    canvas.undo(&shift);
    canvas.perform_operation(Operation::CommitStrokes { strokes: vec![stroke(2, 0)] }, &shift);
    assert_eq!(canvas.retraction_count_at_save(), None);
    canvas.undo(&shift);
    assert!(!canvas.is_saved());
    canvas.undo(&shift);
    assert!(!canvas.is_saved());
    canvas.redo(&shift);
    assert!(!canvas.is_saved());
    canvas.perform_operation(Operation::CommitStrokes { strokes: vec![stroke(3, 0)] }, &shift);
    canvas.undo(&shift);
    assert!(!canvas.is_saved());
    assert_eq!(canvas.retraction_count_at_save(), None);
}

#[test]
fn redo_right_after_an_operation_does_nothing() {
    let mut canvas = TestCanvas::new();
    canvas.perform_operation(Operation::CommitStrokes { strokes: vec![stroke(1, 0)] }, &shift);
    canvas.redo(&shift);
    assert_eq!(shapes(&canvas), vec![1]);
}

#[test]
fn deleting_a_repeated_position_removes_two_and_undo_restores_them() {
    let mut canvas = TestCanvas::from_file(vec![], vec![stroke(1, 0), stroke(2, 0), stroke(3, 0)], vec![]);
    let op = Operation::DeleteObjects { monotone_image_indices: vec![], monotone_stroke_indices: vec![1, 1] };
    assert!(canvas.can_perform(&op));
    canvas.perform_operation(op, &shift);
    assert_eq!(shapes(&canvas), vec![1]);
    canvas.undo(&shift);
    assert_eq!(shapes(&canvas), vec![1, 2, 3]);
    canvas.redo(&shift);
    assert_eq!(shapes(&canvas), vec![1]);
}

#[test]
fn deleting_positions_out_of_order_removes_the_last_listed_first() {
    let mut canvas = TestCanvas::from_file(vec![], vec![stroke(1, 0), stroke(2, 0), stroke(3, 0), stroke(4, 0)], vec![]);
    let op = Operation::DeleteObjects { monotone_image_indices: vec![], monotone_stroke_indices: vec![2, 0] };
    assert!(canvas.can_perform(&op));
    canvas.perform_operation(op, &shift);
    // Position 0 goes first, then position 2 of what is left.
    assert_eq!(shapes(&canvas), vec![2, 3]);
    canvas.undo(&shift);
    assert_eq!(shapes(&canvas), vec![1, 2, 3, 4]);
}
