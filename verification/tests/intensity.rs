use mandelbrot::{intensity_of, render_to_intensity, EscapeField};

fn uniform(width: usize, height: usize, count: usize) -> EscapeField {
    EscapeField::from_rows(width, vec![vec![count; width]; height]).unwrap()
}

#[test]
fn field_at_the_cap_is_all_white() {
    for cap in [1usize, 2, 3, 7, 50, 255, 256, 400, 1000, usize::MAX] {
        let bytes = render_to_intensity(&uniform(4, 3, cap), cap);
        assert_eq!(bytes, vec![255u8; 12]);
    }
}

#[test]
fn field_of_zeros_is_all_black() {
    for cap in [1usize, 7, 50, 400, usize::MAX] {
        let bytes = render_to_intensity(&uniform(5, 2, 0), cap);
        assert_eq!(bytes, vec![0u8; 10]);
    }
}

#[test]
fn intensity_is_scaled_and_rounded_down() {
    assert_eq!(intensity_of(100, 400), 63);
    assert_eq!(intensity_of(3, 7), 109);
    assert_eq!(intensity_of(1, 400), 0);
    assert_eq!(intensity_of(2, 400), 1);
    assert_eq!(intensity_of(399, 400), 254);
    assert_eq!(intensity_of(1, 2), 127);
    assert_eq!(intensity_of(31, 50), 158);
    assert_eq!(intensity_of(0, 1), 0);
    assert_eq!(intensity_of(1, 1), 255);
}

#[test]
fn intensity_of_huge_counts_does_not_overflow() {
    assert_eq!(intensity_of(usize::MAX, usize::MAX), 255);
    assert_eq!(intensity_of(usize::MAX / 2, usize::MAX), 127);
    assert_eq!(intensity_of(usize::MAX - 1, usize::MAX), 254);
}

#[test]
fn buffer_is_row_major_from_the_top() {
    let field = EscapeField::from_rows(3, vec![vec![0, 10, 20], vec![30, 40, 50]]).unwrap();
    let bytes = render_to_intensity(&field, 50);
    assert_eq!(bytes, vec![0u8, 51, 102, 153, 204, 255]);
    for r in 0..2 {
        for c in 0..3 {
            assert_eq!(bytes[r * 3 + c], intensity_of(field.cell(r, c), 50));
        }
    }
}

#[test]
fn buffer_has_one_byte_per_cell() {
    for (width, height) in [(1usize, 1usize), (5, 2), (2, 5), (0, 3), (3, 0)] {
        let bytes = render_to_intensity(&uniform(width, height, 1), 9);
        assert_eq!(bytes.len(), width * height);
    }
}

#[test]
fn higher_count_is_never_darker() {
    for cap in [1usize, 3, 50, 400] {
        for count in 1..=cap {
            assert!(intensity_of(count - 1, cap) <= intensity_of(count, cap));
        }
    }
}
