use mandelbrot::{EscapeField, FieldSweep};

#[test]
fn cells_are_visited_row_by_row() {
    let mut sweep = FieldSweep::new(100, 3, 2);
    let mut seen = Vec::new();
    let mut next = 10;
    while let Some(cell) = sweep.next_cell() {
        seen.push(cell);
        assert!(sweep.record(next));
        next += 1;
    }
    assert_eq!(seen, vec![(0, 0), (0, 1), (0, 2), (1, 0), (1, 1), (1, 2)]);
    let field = sweep.finish().unwrap();
    assert_eq!(field.height(), 2);
    assert_eq!(field.width(), 3);
    assert_eq!(field.get(0, 0), Some(10));
    assert_eq!(field.get(0, 2), Some(12));
    assert_eq!(field.get(1, 0), Some(13));
    assert_eq!(field.get(1, 2), Some(15));
}

#[test]
fn count_above_cap_is_refused() {
    let mut sweep = FieldSweep::new(7, 2, 1);
    assert!(!sweep.record(8));
    assert_eq!(sweep.next_cell(), Some((0, 0)));
    assert!(sweep.record(7));
    assert_eq!(sweep.next_cell(), Some((0, 1)));
    assert!(!sweep.record(usize::MAX));
    assert!(sweep.record(0));
    assert_eq!(sweep.next_cell(), None);
    let field = sweep.finish().unwrap();
    assert_eq!(field.get(0, 0), Some(7));
    assert_eq!(field.get(0, 1), Some(0));
}

#[test]
fn full_sweep_refuses_further_counts() {
    let mut sweep = FieldSweep::new(7, 1, 1);
    assert!(sweep.record(3));
    assert!(!sweep.record(3));
    let field = sweep.finish().unwrap();
    assert_eq!(field.height(), 1);
    assert_eq!(field.get(0, 0), Some(3));
}

#[test]
fn unfinished_sweep_gives_no_field() {
    let mut sweep = FieldSweep::new(7, 2, 2);
    assert!(sweep.record(1));
    assert!(sweep.record(1));
    assert!(sweep.record(1));
    assert!(sweep.finish().is_none());
    assert!(FieldSweep::new(7, 1, 1).finish().is_none());
}

#[test]
fn grid_without_columns_is_complete_from_the_start() {
    let mut sweep = FieldSweep::new(7, 0, 4);
    assert_eq!(sweep.next_cell(), None);
    assert!(!sweep.record(0));
    let field = sweep.finish().unwrap();
    assert_eq!(field.height(), 4);
    assert_eq!(field.width(), 0);
    assert_eq!(field.get(0, 0), None);
}

#[test]
fn grid_without_rows_is_complete_from_the_start() {
    let sweep = FieldSweep::new(7, 4, 0);
    assert_eq!(sweep.next_cell(), None);
    let field = sweep.finish().unwrap();
    assert_eq!(field.height(), 0);
    assert_eq!(field.width(), 4);
}

#[test]
fn finished_field_is_within_the_cap() {
    let mut sweep = FieldSweep::new(5, 2, 2);
    for count in [5, 0, 3, 5] {
        assert!(sweep.record(count));
    }
    let field = sweep.finish().unwrap();
    assert!(field.is_bounded_by(5));
    assert!(!field.is_bounded_by(4));
}

#[test]
fn from_rows_accepts_rectangles_only() {
    let field = EscapeField::from_rows(2, vec![vec![1, 2], vec![3, 4], vec![5, 6]]).unwrap();
    assert_eq!(field.height(), 3);
    assert_eq!(field.width(), 2);
    assert_eq!(field.cell(2, 1), 6);
    assert_eq!(field.get(1, 0), Some(3));
    assert_eq!(field.get(3, 0), None);
    assert_eq!(field.get(0, 2), None);
    assert!(EscapeField::from_rows(2, vec![vec![1, 2], vec![3]]).is_none());
    assert!(EscapeField::from_rows(3, vec![vec![1, 2]]).is_none());
    assert!(EscapeField::from_rows(9, vec![]).is_some());
}

#[test]
fn bound_check_finds_the_largest_cell() {
    let field = EscapeField::from_rows(2, vec![vec![1, 2], vec![9, 4]]).unwrap();
    assert!(field.is_bounded_by(9));
    assert!(field.is_bounded_by(10));
    assert!(!field.is_bounded_by(8));
    assert!(!field.is_bounded_by(0));
    assert!(EscapeField::from_rows(0, vec![vec![], vec![]]).unwrap().is_bounded_by(0));
}
