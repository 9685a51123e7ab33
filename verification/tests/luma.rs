use motion_detector::luma::{convert_plane, detect_stride, pixel_luma};
use motion_detector::MotionDetector;

#[test]
fn luma_of_primaries() {
    assert_eq!(pixel_luma(0, 0, 0), 0);
    assert_eq!(pixel_luma(255, 255, 255), 255);
    // 0.299 * 255 = 76.245
    assert_eq!(pixel_luma(255, 0, 0), 76);
    // 0.587 * 255 = 149.685
    assert_eq!(pixel_luma(0, 255, 0), 149);
    // 0.114 * 255 = 29.07
    assert_eq!(pixel_luma(0, 0, 255), 29);
}

#[test]
fn luma_rounds_down() {
    // 2.99 + 117.4 + 3.42 = 123.81
    assert_eq!(pixel_luma(10, 200, 30), 123);
    // 0.299 + 0.587 = 0.886
    assert_eq!(pixel_luma(1, 1, 0), 0);
    // 0.299 * 4 = 1.196
    assert_eq!(pixel_luma(4, 0, 0), 1);
    // 59.8 + 58.7 + 0.456 = 118.956
    assert_eq!(pixel_luma(200, 100, 4), 118);
}

#[test]
fn luma_of_grey_is_the_grey() {
    for v in 0..=255u8 {
        assert_eq!(pixel_luma(v, v, v), v);
    }
}

#[test]
fn stride_of_rgba_and_rgb() {
    assert_eq!(detect_stride(8, 2, 1), Some(4));
    assert_eq!(detect_stride(6, 2, 1), Some(3));
    assert_eq!(detect_stride(1228800, 640, 480), Some(4));
    assert_eq!(detect_stride(921600, 640, 480), Some(3));
}

#[test]
fn stride_of_other_lengths() {
    assert_eq!(detect_stride(7, 2, 1), None);
    assert_eq!(detect_stride(0, 2, 1), None);
    assert_eq!(detect_stride(2, 2, 1), None);
    assert_eq!(detect_stride(12, 2, 1), None);
    assert_eq!(detect_stride(1228800, 0, 0), None);
}

#[test]
fn stride_of_empty_frame_of_no_pixels() {
    assert_eq!(detect_stride(0, 0, 0), Some(4));
    assert_eq!(detect_stride(0, 0, 480), Some(4));
    assert_eq!(detect_stride(0, 640, 0), Some(4));
}

#[test]
fn stride_where_the_size_overflows() {
    assert_eq!(detect_stride(0, usize::MAX, 2), None);
    assert_eq!(detect_stride(8, usize::MAX, usize::MAX), None);
    assert_eq!(detect_stride(usize::MAX, usize::MAX, 1), None);
    assert_eq!(detect_stride(usize::MAX - 3, usize::MAX / 2, 2), None);
}

#[test]
fn plane_of_rgb_pixels() {
    let frame = vec![255, 0, 0, 0, 255, 0, 0, 0, 255, 10, 200, 30];
    assert_eq!(convert_plane(&frame, 3), vec![76, 149, 29, 123]);
}

#[test]
fn plane_of_rgba_pixels_ignores_alpha() {
    let frame = vec![255, 0, 0, 7, 0, 255, 0, 200, 10, 200, 30, 0];
    assert_eq!(convert_plane(&frame, 4), vec![76, 149, 123]);
}

#[test]
fn plane_ignores_trailing_partial_pixel() {
    let frame = vec![255, 255, 255, 0, 0, 0, 9, 9];
    assert_eq!(convert_plane(&frame, 3), vec![255, 0]);
    assert_eq!(convert_plane(&vec![1, 2], 3), Vec::<u8>::new());
    assert_eq!(convert_plane(&Vec::new(), 4), Vec::<u8>::new());
}

#[test]
fn grayscale_of_uniform_rgb_frame() {
    let d = MotionDetector::new(3, 2);
    let mut frame = Vec::new();
    for _ in 0..6 {
        frame.push(10);
        frame.push(200);
        frame.push(30);
    }
    assert_eq!(d.to_grayscale(frame), vec![123u8; 6]);
}

#[test]
fn grayscale_of_uniform_rgba_frame() {
    let d = MotionDetector::new(2, 4);
    let mut frame = Vec::new();
    for _ in 0..8 {
        frame.push(200);
        frame.push(100);
        frame.push(4);
        frame.push(255);
    }
    assert_eq!(d.to_grayscale(frame), vec![118u8; 8]);
}

#[test]
fn grayscale_of_mixed_frame() {
    let d = MotionDetector::new(2, 1);
    assert_eq!(d.to_grayscale(vec![255, 0, 0, 0, 0, 255]), vec![76, 29]);
    assert_eq!(d.to_grayscale(vec![255, 0, 0, 1, 0, 0, 255, 1]), vec![76, 29]);
}

#[test]
fn grayscale_of_wrong_length_is_empty() {
    let d = MotionDetector::new(2, 1);
    assert_eq!(d.to_grayscale(Vec::new()), Vec::<u8>::new());
    assert_eq!(d.to_grayscale(vec![1; 5]), Vec::<u8>::new());
    assert_eq!(d.to_grayscale(vec![1; 7]), Vec::<u8>::new());
    assert_eq!(d.to_grayscale(vec![1; 9]), Vec::<u8>::new());
    assert_eq!(d.to_grayscale(vec![1; 12]), Vec::<u8>::new());
}

#[test]
fn grayscale_follows_the_configured_size() {
    let mut d = MotionDetector::new(2, 1);
    // Eight bytes are two RGBA pixels now.
    assert_eq!(d.to_grayscale(vec![50; 8]).len(), 2);
    d.set_size(4, 2);
    assert_eq!(d.to_grayscale(vec![50; 8]), Vec::<u8>::new());
    assert_eq!(d.to_grayscale(vec![50; 24]), vec![50u8; 8]);
    assert_eq!(d.to_grayscale(vec![50; 32]), vec![50u8; 8]);
}
