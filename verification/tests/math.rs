use dungen::data::{pos, GridPos};
use dungen::util::math::{absdiff, bresenham_line, on_same_column, on_same_row, uint_sqrt};

#[test]
fn absdiff_test() {
    assert_eq!(absdiff(4u32, 17u32), 13u32);
    assert_eq!(absdiff(17u32, 4u32), 13u32);

    assert_eq!(absdiff(40usize, 17usize), 23usize);
    assert_eq!(absdiff(17usize, 40usize), 23usize);
}

#[test]
fn uint_sqrt_of_squares_only() {
    assert_eq!(uint_sqrt(100usize), Some(10));
    assert_eq!(uint_sqrt(10usize), None);
    assert_eq!(uint_sqrt(0usize), Some(0));
    assert_eq!(uint_sqrt(1usize), Some(1));
    assert_eq!(uint_sqrt(99usize), None);
}

#[test]
fn bresenham_flat_line() {
    assert_eq!(bresenham_line((0, 0), (3, 0)), vec![(0, 0), (1, 0), (2, 0), (3, 0)]);
}

#[test]
fn bresenham_shallow_line() {
    assert_eq!(bresenham_line((0, 0), (4, 2)), vec![(0, 0), (1, 0), (2, 1), (3, 1), (4, 2)]);
}

#[test]
fn bresenham_steep_and_reversed() {
    assert_eq!(bresenham_line((0, 0), (1, 3)), vec![(0, 0), (0, 1), (1, 2), (1, 3)]);
    assert_eq!(bresenham_line((3, 0), (0, 0)), vec![(3, 0), (2, 0), (1, 0), (0, 0)]);
    assert_eq!(bresenham_line((2, 2), (2, 2)), vec![(2, 2)]);
}

#[test]
fn bresenham_ends_at_both_points() {
    let pts = bresenham_line((5, 1), (0, 4));
    assert_eq!(pts.first(), Some(&(5, 1)));
    assert_eq!(pts.last(), Some(&(0, 4)));
    assert_eq!(pts.len(), 6);
}

#[test]
fn same_row_and_column() {
    let a: GridPos = pos((1, 2));
    assert!(on_same_row(a, pos((5, 2))));
    assert!(!on_same_row(a, pos((1, 3))));
    assert!(on_same_column(a, pos((1, 7))));
    assert!(!on_same_column(a, pos((2, 2))));
}
