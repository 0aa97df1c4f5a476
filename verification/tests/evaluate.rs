use mandelbrot::{
    render_to_intensity, render_to_text, EscapeField, EscapeProbe, Evaluation, GlyphTable,
};
use num::complex::Complex;

fn escape_time_at(x: f64, y: f64, cap: usize) -> usize {
    let c = Complex::new(x, y);
    let mut z = Complex::new(0.0, 0.0);
    let mut probe = EscapeProbe::new(cap);
    loop {
        if let Some(count) = probe.outcome() {
            return count;
        }
        let exceeds = z.norm() > 2.0;
        probe.observe(exceeds);
        if !exceeds {
            z = z * z + c;
        }
    }
}

fn evaluate(
    cap: usize,
    x_min: f64,
    x_max: f64,
    y_min: f64,
    y_max: f64,
    width: usize,
    height: usize,
) -> EscapeField {
    let mut evaluation = Evaluation::begin(cap, width, height);
    let mut c = Complex::new(0.0, 0.0);
    let mut z = Complex::new(0.0, 0.0);
    while let Some((row, col)) = evaluation.current_cell() {
        if evaluation.at_orbit_start() {
            let cx = x_min + (x_max - x_min) * (col as f64 / width as f64);
            let cy = y_min + (y_max - y_min) * (row as f64 / height as f64);
            c = Complex::new(cx, cy);
            z = Complex::new(0.0, 0.0);
        } else {
            z = z * z + c;
        }
        evaluation.observe(z.norm() > 2.0);
    }
    match evaluation.finish() {
        Some(field) => field,
        None => panic!("no cell is left but the field is not finished"),
    }
}

fn rows_of(field: &EscapeField) -> Vec<Vec<usize>> {
    let mut rows = Vec::new();
    for r in 0..field.height() {
        let mut row = Vec::new();
        for c in 0..field.width() {
            row.push(field.cell(r, c));
        }
        rows.push(row);
    }
    rows
}

#[test]
fn origin_never_escapes() {
    for cap in [1usize, 2, 7, 50, 400] {
        assert_eq!(escape_time_at(0.0, 0.0, cap), cap);
    }
}

#[test]
fn points_inside_the_set_reach_the_cap() {
    assert_eq!(escape_time_at(-1.0, 0.0, 300), 300);
    assert_eq!(escape_time_at(-0.1, 0.1, 300), 300);
    assert_eq!(escape_time_at(0.25, 0.0, 300), 300);
    assert_eq!(escape_time_at(-2.0, 0.0, 300), 300);
}

#[test]
fn far_point_escapes_at_the_first_check_after_the_first_update() {
    // The orbit starts at zero, which is inside the radius, so the check
    // with index 0 never fires; the point itself is checked at index 1.
    assert_eq!(escape_time_at(3.0, 0.0, 50), 1);
    assert_eq!(escape_time_at(3.0, 0.0, 2), 1);
    assert_eq!(escape_time_at(0.0, -2.5, 400), 1);
    assert_eq!(escape_time_at(-2.0, -0.2, 50), 1);
}

#[test]
fn far_point_under_cap_one_reports_the_cap() {
    assert_eq!(escape_time_at(3.0, 0.0, 1), 1);
}

#[test]
fn norm_of_exactly_two_has_not_escaped() {
    // 0, 2, 6: the norm 2 is not above the radius, 6 is.
    assert_eq!(escape_time_at(2.0, 0.0, 50), 2);
}

#[test]
fn known_escape_times() {
    assert_eq!(escape_time_at(0.5, 0.5, 50), 5);
    assert_eq!(escape_time_at(1.0, 1.0, 50), 2);
    assert_eq!(escape_time_at(0.3, 0.5, 400), 400);
}

#[test]
fn grid_has_height_rows_of_width_cells() {
    for (width, height) in [(1usize, 1usize), (10, 5), (3, 8), (7, 7), (1, 6), (6, 1)] {
        let field = evaluate(30, -2.0, 1.0, -1.0, 1.0, width, height);
        assert_eq!(field.height(), height);
        assert_eq!(field.width(), width);
        for r in 0..height {
            for c in 0..width {
                assert!(field.get(r, c).is_some());
            }
            assert_eq!(field.get(r, width), None);
        }
        assert_eq!(field.get(height, 0), None);
    }
}

#[test]
fn every_cell_is_within_the_cap() {
    for cap in [1usize, 2, 5, 50, 120] {
        let field = evaluate(cap, -2.0, 1.0, -1.0, 1.0, 12, 9);
        assert!(field.is_bounded_by(cap));
        for row in rows_of(&field) {
            for count in row {
                assert!(count <= cap);
            }
        }
    }
}

#[test]
fn end_to_end_ten_by_five() {
    let field = evaluate(50, -2.0, 1.0, -1.0, 1.0, 10, 5);
    assert_eq!(field.height(), 5);
    assert_eq!(field.width(), 10);
    assert!(field.is_bounded_by(50));
    // Row 2, column 3 samples -1.1 - 0.2i, inside the disc around -1.
    assert_eq!(field.get(2, 3), Some(50));
    assert_eq!(
        rows_of(&field),
        vec![
            vec![1, 2, 3, 3, 3, 4, 7, 4, 3, 2],
            vec![1, 3, 3, 4, 5, 50, 50, 50, 15, 3],
            vec![1, 4, 6, 50, 15, 50, 50, 50, 31, 3],
            vec![1, 4, 6, 50, 15, 50, 50, 50, 31, 3],
            vec![1, 3, 3, 4, 5, 50, 50, 50, 15, 3],
        ]
    );
}

#[test]
fn each_axis_is_scaled_by_its_own_dimension() {
    let field = evaluate(400, -1.2, 0.2, -1.0, 0.35, 8, 4);
    assert_eq!(
        rows_of(&field),
        vec![
            vec![3, 3, 3, 4, 4, 5, 11, 6],
            vec![3, 4, 4, 6, 11, 13, 400, 14],
            vec![15, 20, 9, 189, 400, 400, 400, 400],
            vec![400, 400, 400, 400, 400, 400, 400, 400],
        ]
    );
}

#[test]
fn higher_cap_only_reveals_more() {
    let low = evaluate(20, -2.0, 1.0, -1.0, 1.0, 10, 5);
    let high = evaluate(50, -2.0, 1.0, -1.0, 1.0, 10, 5);
    for r in 0..5 {
        for c in 0..10 {
            let a = low.cell(r, c);
            let b = high.cell(r, c);
            assert!(a <= b);
            if a < 20 {
                assert_eq!(a, b);
            }
        }
    }
    // A cell that the low cap cut short: it escapes at 31.
    assert_eq!(low.cell(2, 8), 20);
    assert_eq!(high.cell(2, 8), 31);
}

#[test]
fn zero_dimensions_give_degenerate_fields() {
    let no_columns = evaluate(10, -2.0, 1.0, -1.0, 1.0, 0, 3);
    assert_eq!(no_columns.height(), 3);
    assert_eq!(no_columns.width(), 0);
    assert_eq!(render_to_intensity(&no_columns, 10), Vec::<u8>::new());
    let no_rows = evaluate(10, -2.0, 1.0, -1.0, 1.0, 4, 0);
    assert_eq!(no_rows.height(), 0);
    assert_eq!(no_rows.width(), 4);
    assert_eq!(render_to_intensity(&no_rows, 10), Vec::<u8>::new());
}

#[test]
fn evaluated_field_renders_both_ways() {
    let field = evaluate(50, -2.0, 1.0, -1.0, 1.0, 10, 5);
    let bytes = render_to_intensity(&field, 50);
    assert_eq!(bytes.len(), 50);
    assert_eq!(&bytes[20..30], &[5u8, 20, 30, 255, 76, 255, 255, 255, 158, 15][..]);
    let lines = render_to_text(&field, &GlyphTable::standard());
    assert_eq!(
        lines,
        vec![
            "  ....\u{2022}.. ".to_string(),
            " ....+++\u{25e6}.".to_string(),
            " .\u{2022}+\u{25e6}++++.".to_string(),
            " .\u{2022}+\u{25e6}++++.".to_string(),
            " ....+++\u{25e6}.".to_string(),
            String::new(),
        ]
    );
}

#[test]
fn grid_agrees_with_single_probes() {
    let (cap, width, height) = (60usize, 9usize, 7usize);
    let field = evaluate(cap, -2.0, 1.0, -1.0, 1.0, width, height);
    for r in 0..height {
        for c in 0..width {
            let cx = -2.0 + 3.0 * (c as f64 / width as f64);
            let cy = -1.0 + 2.0 * (r as f64 / height as f64);
            assert_eq!(field.cell(r, c), escape_time_at(cx, cy, cap));
        }
    }
}
