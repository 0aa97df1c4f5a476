use mandelbrot::Evaluation;

fn feed(evaluation: &mut Evaluation, flags: &[bool]) {
    for &flag in flags {
        evaluation.observe(flag);
    }
}

#[test]
fn evaluation_starts_at_the_first_cell() {
    let evaluation = Evaluation::begin(5, 3, 2);
    assert_eq!(evaluation.current_cell(), Some((0, 0)));
    assert!(evaluation.at_orbit_start());
    assert!(evaluation.finish().is_none());
}

#[test]
fn exceeding_observation_ends_the_orbit_with_its_index() {
    let mut evaluation = Evaluation::begin(5, 2, 1);
    evaluation.observe(false);
    assert_eq!(evaluation.current_cell(), Some((0, 0)));
    assert!(!evaluation.at_orbit_start());
    evaluation.observe(false);
    evaluation.observe(true);
    assert_eq!(evaluation.current_cell(), Some((0, 1)));
    assert!(evaluation.at_orbit_start());
    evaluation.observe(true);
    assert_eq!(evaluation.current_cell(), None);
    let field = evaluation.finish().unwrap();
    assert_eq!(field.get(0, 0), Some(2));
    assert_eq!(field.get(0, 1), Some(0));
}

#[test]
fn orbit_that_uses_up_the_cap_gets_the_cap() {
    let mut evaluation = Evaluation::begin(3, 1, 2);
    feed(&mut evaluation, &[false, false]);
    assert_eq!(evaluation.current_cell(), Some((0, 0)));
    evaluation.observe(false);
    assert_eq!(evaluation.current_cell(), Some((1, 0)));
    assert!(evaluation.at_orbit_start());
    feed(&mut evaluation, &[false, false, true]);
    assert_eq!(evaluation.current_cell(), None);
    let field = evaluation.finish().unwrap();
    assert_eq!(field.get(0, 0), Some(3));
    assert_eq!(field.get(1, 0), Some(2));
}

#[test]
fn cells_are_filled_row_by_row() {
    let mut evaluation = Evaluation::begin(4, 3, 2);
    let mut cells = Vec::new();
    // Cell number k escapes at its observation with index k % 4.
    let mut k = 0;
    while let Some(cell) = evaluation.current_cell() {
        cells.push(cell);
        for _ in 0..(k % 4) {
            evaluation.observe(false);
        }
        evaluation.observe(true);
        k += 1;
    }
    assert_eq!(cells, vec![(0, 0), (0, 1), (0, 2), (1, 0), (1, 1), (1, 2)]);
    let field = evaluation.finish().unwrap();
    assert_eq!(field.height(), 2);
    assert_eq!(field.width(), 3);
    let counts: Vec<usize> =
        (0..2).flat_map(|r| (0..3).map(move |c| (r, c))).map(|(r, c)| field.cell(r, c)).collect();
    assert_eq!(counts, vec![0, 1, 2, 3, 0, 1]);
    assert!(field.is_bounded_by(3));
}

#[test]
fn observations_after_the_end_change_nothing() {
    let mut evaluation = Evaluation::begin(2, 1, 1);
    feed(&mut evaluation, &[false, true]);
    assert_eq!(evaluation.current_cell(), None);
    feed(&mut evaluation, &[true, false, true]);
    assert_eq!(evaluation.current_cell(), None);
    assert!(evaluation.at_orbit_start());
    let field = evaluation.finish().unwrap();
    assert_eq!(field.height(), 1);
    assert_eq!(field.get(0, 0), Some(1));
}

#[test]
fn cap_zero_fills_the_field_with_zeros() {
    let evaluation = Evaluation::begin(0, 3, 2);
    assert_eq!(evaluation.current_cell(), None);
    let field = evaluation.finish().unwrap();
    assert_eq!(field.height(), 2);
    assert_eq!(field.width(), 3);
    for r in 0..2 {
        for c in 0..3 {
            assert_eq!(field.get(r, c), Some(0));
        }
    }
}

#[test]
fn evaluation_without_cells_is_finished_at_once() {
    let no_columns = Evaluation::begin(9, 0, 3);
    assert_eq!(no_columns.current_cell(), None);
    let field = no_columns.finish().unwrap();
    assert_eq!((field.height(), field.width()), (3, 0));
    let no_rows = Evaluation::begin(9, 3, 0);
    assert_eq!(no_rows.current_cell(), None);
    let field = no_rows.finish().unwrap();
    assert_eq!((field.height(), field.width()), (0, 3));
}

#[test]
fn cap_one_takes_one_observation_per_cell() {
    let mut evaluation = Evaluation::begin(1, 2, 1);
    evaluation.observe(false);
    assert_eq!(evaluation.current_cell(), Some((0, 1)));
    evaluation.observe(true);
    let field = evaluation.finish().unwrap();
    assert_eq!(field.get(0, 0), Some(1));
    assert_eq!(field.get(0, 1), Some(0));
}
