use checkbox_frontend::line::line_cells;

#[test]
fn line_single_cell() {
    assert_eq!(line_cells(3, -4, 3, -4), vec![(3, -4)]);
}

#[test]
fn line_horizontal_and_vertical() {
    assert_eq!(line_cells(0, 0, 3, 0), vec![(0, 0), (1, 0), (2, 0), (3, 0)]);
    assert_eq!(line_cells(0, 2, 0, -1), vec![(0, 2), (0, 1), (0, 0), (0, -1)]);
}

#[test]
fn line_diagonal() {
    assert_eq!(line_cells(0, 0, -3, 3), vec![(0, 0), (-1, 1), (-2, 2), (-3, 3)]);
}

#[test]
fn line_shallow() {
    assert_eq!(line_cells(0, 0, 5, 2), vec![(0, 0), (1, 0), (2, 1), (3, 1), (4, 2), (5, 2)]);
}

#[test]
fn line_steep_reversed() {
    let cells = line_cells(2, 6, 0, 0);
    assert_eq!(cells.len(), 7);
    assert_eq!(cells[0], (2, 6));
    assert_eq!(cells[6], (0, 0));
    for w in cells.windows(2) {
        assert_eq!(w[0].1 - w[1].1, 1);
        assert!(w[0].0 - w[1].0 == 0 || w[0].0 - w[1].0 == 1);
    }
}

#[test]
fn line_extreme_span() {
    let cells = line_cells(i32::MIN, 0, i32::MIN + 10, 1);
    assert_eq!(cells.len(), 11);
    assert_eq!(cells[10], (i32::MIN + 10, 1));
}

#[test]
fn line_tie_shallow_stays_behind() {
    // At x = 1 the ideal line is at y = 0.5: the cell behind it (y = 0) is taken.
    assert_eq!(line_cells(0, 0, 2, 1), vec![(0, 0), (1, 0), (2, 1)]);
    assert_eq!(line_cells(0, 0, -2, -1), vec![(0, 0), (-1, 0), (-2, -1)]);
}

#[test]
fn line_tie_steep_stays_behind() {
    // At y = 1 the ideal line is at x = 0.5: the cell behind it (x = 0) is taken.
    assert_eq!(line_cells(0, 0, 1, 2), vec![(0, 0), (0, 1), (1, 2)]);
    assert_eq!(line_cells(0, 0, -1, -2), vec![(0, 0), (0, -1), (-1, -2)]);
}
