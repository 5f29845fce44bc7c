use fmi::{grayscale, next_frame, rgb_to_brightness, to_rgb_buffer};

#[test]
fn grayscale_values() {
    assert_eq!(grayscale(0, 0, 0), 0);
    assert_eq!(grayscale(255, 255, 255), 255);
    assert_eq!(grayscale(100, 50, 25), 62);
    assert_eq!(grayscale(255, 0, 0), 76);
    assert_eq!(grayscale(0, 255, 0), 150);
    assert_eq!(grayscale(0, 0, 255), 28);
}

#[test]
fn rgb_buffer_to_brightness() {
    let rgb = vec![255, 255, 255, 100, 50, 25, 0, 0, 255, 9];
    assert_eq!(rgb_to_brightness(&rgb), vec![255, 62, 28]);
    assert!(rgb_to_brightness(&vec![]).is_empty());
}

#[test]
fn brightness_to_display_words() {
    assert_eq!(to_rgb_buffer(&vec![0, 128, 255]), vec![0, 0x808080, 0xffffff]);
}

#[test]
fn frames_wrap_around() {
    assert_eq!(next_frame(0, 3), 1);
    assert_eq!(next_frame(1, 3), 2);
    assert_eq!(next_frame(2, 3), 0);
    assert_eq!(next_frame(0, 1), 0);
}
