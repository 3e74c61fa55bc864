use inksy::geometry::{stroke_indices, Turn};

#[test]
fn no_points_no_triangles() {
    assert!(stroke_indices(0, &[]).is_empty());
}

#[test]
fn one_point_is_a_heptagon() {
    assert_eq!(
        stroke_indices(1, &[]),
        vec![0, 1, 2, 0, 2, 3, 0, 3, 4, 0, 4, 5, 0, 5, 6, 0, 6, 7, 0, 7, 1]
    );
}

#[test]
fn two_points_are_one_quad() {
    assert_eq!(stroke_indices(2, &[]), vec![0, 2, 3, 0, 3, 1]);
}

#[test]
fn bends_get_join_triangles() {
    let straight = stroke_indices(3, &[Turn::Straight]);
    assert_eq!(straight, vec![0, 2, 3, 0, 3, 1, 4, 6, 7, 4, 7, 5]);
    let clockwise = stroke_indices(3, &[Turn::Clockwise]);
    assert_eq!(clockwise, vec![0, 2, 3, 0, 3, 1, 4, 6, 7, 4, 7, 5, 2, 4, 5]);
    let counterclockwise = stroke_indices(4, &[Turn::Counterclockwise, Turn::Clockwise]);
    assert_eq!(
        counterclockwise,
        vec![0, 2, 3, 0, 3, 1, 4, 6, 7, 4, 7, 5, 8, 10, 11, 8, 11, 9, 3, 5, 4, 6, 8, 9]
    );
}

#[test]
fn indices_stay_below_the_vertex_count() {
    let turns = [Turn::Clockwise, Turn::Counterclockwise, Turn::Clockwise, Turn::Straight];
    let indices = stroke_indices(6, &turns);
    assert_eq!(indices.len() % 3, 0);
    assert!(indices.iter().all(|&i| i < 4 * 5));
}
