use hellcall_core::vision::{arrow_class_name, arrow_class_names, bgra_to_rgba, rgba_to_rgb};

#[test]
fn detection_classes_name_directions() {
    assert_eq!(arrow_class_name(0), "UP");
    assert_eq!(arrow_class_name(1), "DOWN");
    assert_eq!(arrow_class_name(2), "LEFT");
    assert_eq!(arrow_class_name(3), "RIGHT");
    assert_eq!(arrow_class_name(4), "UNKNOWN");
    assert_eq!(arrow_class_names(&vec![3, 0, 9]), vec!["RIGHT", "UP", "UNKNOWN"]);
}

#[test]
fn alpha_is_dropped_from_each_pixel() {
    assert_eq!(rgba_to_rgb(&vec![1, 2, 3, 255, 4, 5, 6, 0]), vec![1, 2, 3, 4, 5, 6]);
    assert_eq!(rgba_to_rgb(&vec![1, 2, 3, 4, 9, 9]), vec![1, 2, 3]);
    assert!(rgba_to_rgb(&vec![]).is_empty());
}

#[test]
fn blue_and_red_are_swapped_in_each_pixel() {
    assert_eq!(bgra_to_rgba(&vec![1, 2, 3, 4, 5, 6, 7, 8]), vec![3, 2, 1, 4, 7, 6, 5, 8]);
    assert_eq!(bgra_to_rgba(&vec![1, 2, 3, 4, 9, 8]), vec![3, 2, 1, 4, 9, 8]);
}
