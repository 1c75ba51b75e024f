use wireframe::raster::{calculate_y, check_point_on_line};

#[test]
fn horizontal_segment() {
    assert!(check_point_on_line(0, 0, 10, 0, 5, 0));
    assert!(!check_point_on_line(0, 0, 10, 0, 5, 1));
    assert!(!check_point_on_line(0, 0, 10, 0, 11, 0));
}

#[test]
fn vertical_segment() {
    assert!(check_point_on_line(3, 0, 3, 10, 3, 5));
    assert!(!check_point_on_line(3, 0, 3, 10, 4, 5));
    assert!(!check_point_on_line(3, 0, 3, 10, 3, 11));
}

#[test]
fn endpoints_are_on_segment() {
    assert!(check_point_on_line(2, 7, 9, 3, 2, 7));
    assert!(check_point_on_line(2, 7, 9, 3, 9, 3));
    assert!(check_point_on_line(9, 3, 2, 7, 2, 7));
}

#[test]
fn endpoint_order_does_not_matter_on_diagonal() {
    for i in 0..=10 {
        assert!(check_point_on_line(0, 0, 10, 10, i, i));
        assert!(check_point_on_line(10, 10, 0, 0, i, i));
        assert!(check_point_on_line(0, 10, 10, 0, i, 10 - i));
    }
    assert!(!check_point_on_line(0, 0, 10, 10, 4, 5));
}

#[test]
fn line_row_is_rounded_to_nearest() {
    assert_eq!(calculate_y(0, 0, 10, 5, 3), 2);
    assert_eq!(calculate_y(0, 0, 4, 1, 2), 1);
    assert_eq!(calculate_y(0, 0, 4, 1, 1), 0);
    assert_eq!(calculate_y(0, 10, 10, 0, 3), 7);
    assert_eq!(calculate_y(10, 0, 0, 10, 3), 7);
}

#[test]
fn line_row_saturates() {
    assert_eq!(calculate_y(5, 0, 6, 10, 0), 0);
    assert_eq!(calculate_y(0, 0, 1, u32::MAX, 2), u32::MAX);
}
