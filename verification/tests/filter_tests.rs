use image_conv::{ConvError, Filter};

#[test]
fn test_filter_init() {
    let k = Filter::new(5, 5);
    assert_eq!(k.kernel(), vec![0 as i32; 25]);
}

#[test]
fn test_kernel_val_assignment() {
    let mut k = Filter::new(3, 3);
    let val: i32 = 10;
    for i in 0..3 {
        for j in 0..3 {
            k.set_value_at_pos(val, (i, j)).unwrap();
        }
    }

    assert_eq!(k.kernel(), vec![10, 10, 10, 10, 10, 10, 10, 10, 10]);
}

#[test]
fn test_filter_from_matching_shape() {
    let sobel_x: Vec<i32> = vec![1, 0, -1, 2, 0, -2, 1, 0, -1];
    let filter = Filter::from(sobel_x.clone(), 3, 3).unwrap();
    assert_eq!(filter.width(), 3);
    assert_eq!(filter.height(), 3);
    assert_eq!(filter.divisor(), 1);
    assert_eq!(filter.kernel(), sobel_x);
}

#[test]
fn test_filter_from_shape_mismatch() {
    // Nine weights declared as 3 x 2 must be rejected.
    let weights: Vec<i32> = vec![1, 2, 3, 4, 5, 6, 7, 8, 9];
    let result = Filter::from(weights, 3, 2);
    assert_eq!(result.unwrap_err(), ConvError::InvalidFilterShape);
}

#[test]
fn test_filter_from_scaled() {
    let averaging = Filter::from_scaled(vec![1; 9], 3, 3, 9).unwrap();
    assert_eq!(averaging.width(), 3);
    assert_eq!(averaging.height(), 3);
    assert_eq!(averaging.divisor(), 9);
    assert_eq!(averaging.kernel(), vec![1; 9]);
}

#[test]
fn test_filter_from_scaled_shape_mismatch() {
    let result = Filter::from_scaled(vec![1; 8], 3, 3, 9);
    assert_eq!(result.unwrap_err(), ConvError::InvalidFilterShape);
}

#[test]
fn test_get_element() {
    let filter = Filter::from(vec![1, 2, 3, 4, 5, 6], 2, 3).unwrap();
    // Element (x, y) lives at x * width + y.
    assert_eq!(filter.get_element(0, 0), Some(1));
    assert_eq!(filter.get_element(0, 1), Some(2));
    assert_eq!(filter.get_element(1, 0), Some(3));
    assert_eq!(filter.get_element(2, 1), Some(6));
    assert_eq!(filter.get_element(3, 0), None);
    assert_eq!(filter.get_element(0, 6), None);
}

#[test]
fn test_get_element_empty_kernel() {
    let filter = Filter::new(0, 5);
    assert_eq!(filter.get_element(0, 0), None);
}

#[test]
fn test_set_value_out_of_range() {
    let mut filter = Filter::new(2, 2);
    let result = filter.set_value_at_pos(7, (5, 5));
    assert_eq!(result.unwrap_err(), ConvError::FilterIndexOutOfRange);
    assert_eq!(filter.kernel(), vec![0, 0, 0, 0]);
}
