use stimstation::line_raster::{glow_line_points, line_points};

#[test]
fn shallow_line_rounds_to_the_nearest_row() {
    assert_eq!(line_points(0, 0, 3, 1), vec![(0, 0), (1, 0), (2, 1), (3, 1)]);
}

#[test]
fn steep_line_rounds_to_the_nearest_column() {
    assert_eq!(line_points(0, 0, 1, 2), vec![(0, 0), (1, 1), (1, 2)]);
}

#[test]
fn single_point_line() {
    assert_eq!(line_points(4, -3, 4, -3), vec![(4, -3)]);
}

#[test]
fn vertical_line_walks_up() {
    assert_eq!(line_points(2, 5, 2, 1), vec![(2, 5), (2, 4), (2, 3), (2, 2), (2, 1)]);
}

#[test]
fn diagonal_line_moves_both_ways() {
    assert_eq!(line_points(0, 0, -2, -2), vec![(0, 0), (-1, -1), (-2, -2)]);
}

#[test]
fn every_line_is_connected_from_end_to_end() {
    for &(x0, y0, x1, y1) in &[(0, 0, 7, 3), (-5, 2, 4, -9), (10, 10, -3, 12), (0, 0, 0, 9), (3, 1, 3, 1)] {
        let pts = line_points(x0, y0, x1, y1);
        assert_eq!(pts[0], (x0, y0));
        assert_eq!(*pts.last().unwrap(), (x1, y1));
        let longer = (x1 - x0).abs().max((y1 - y0).abs()) as usize;
        assert_eq!(pts.len(), longer + 1);
        for w in pts.windows(2) {
            assert!((w[1].0 - w[0].0).abs() <= 1);
            assert!((w[1].1 - w[0].1).abs() <= 1);
            assert!(w[0] != w[1]);
        }
    }
}

#[test]
fn glowing_line_rounds_halves_towards_its_start() {
    let pts = glow_line_points(0, 0, 4, 1, 10, 10, 10);
    assert_eq!(pts, vec![(0, 0), (1, 0), (2, 0), (3, 1), (4, 1)]);
    let plain = line_points(0, 0, 4, 1);
    assert_eq!(plain[2], (2, 1));
}

#[test]
fn glowing_line_stops_where_it_leaves_the_window() {
    assert_eq!(glow_line_points(2, 2, -3, 2, 10, 10, 10), vec![(2, 2), (1, 2), (0, 2)]);
    assert_eq!(glow_line_points(5, 12, 5, 0, 10, 10, 10), vec![]);
}

#[test]
fn glowing_line_beyond_one_edge_is_culled() {
    assert_eq!(glow_line_points(-1, 3, -7, 5, 10, 10, 10), vec![]);
    assert_eq!(glow_line_points(2, 20, 3, 30, 10, 10, 10), vec![]);
    // Both ends below the rows of the frame, though inside the walk's window.
    assert_eq!(glow_line_points(2, 8, 3, 9, 10, 10, 8), vec![]);
    assert_eq!(glow_line_points(2, 8, 3, 9, 10, 10, 9), vec![(2, 8), (3, 9)]);
}
