use hub75::framebuffer::{Color, FrameBuffer};

#[test]
fn new_frame_is_black() {
    let fb = FrameBuffer::new(64, 64);
    assert_eq!(fb.width(), 64);
    assert_eq!(fb.height(), 64);
    for y in 0..64 {
        for x in 0..64 {
            assert_eq!(fb.get_pixel(x, y), Color::black());
        }
    }
}

#[test]
fn set_and_get_pixel() {
    let mut fb = FrameBuffer::new(64, 64);
    let c = Color { r: 1, g: 2, b: 3 };
    fb.set_pixel(10, 20, c);
    assert_eq!(fb.get_pixel(10, 20), c);
    assert_eq!(fb.get_pixel(20, 10), Color::black());
}

#[test]
fn outside_pixels_are_ignored_and_black() {
    let mut fb = FrameBuffer::new(4, 3);
    fb.fill(Color::white());
    fb.set_pixel(4, 0, Color::red());
    fb.set_pixel(0, 3, Color::red());
    assert_eq!(fb.get_pixel(4, 0), Color::black());
    assert_eq!(fb.get_pixel(0, 3), Color::black());
    for y in 0..3 {
        for x in 0..4 {
            assert_eq!(fb.get_pixel(x, y), Color::white());
        }
    }
}

#[test]
fn fill_paints_every_pixel() {
    let mut fb = FrameBuffer::new(5, 7);
    fb.fill(Color::blue());
    for y in 0..7 {
        for x in 0..5 {
            assert_eq!(fb.get_pixel(x, y), Color::blue());
        }
    }
}

#[test]
fn empty_frame() {
    let fb = FrameBuffer::new(0, 0);
    assert_eq!(fb.get_pixel(0, 0), Color::black());
}

#[test]
fn rgb8_is_gamma_corrected() {
    let bytes = vec![0u8, 128, 255, 64, 200, 0];
    let fb = FrameBuffer::from_rgb8(2, 1, &bytes).unwrap();
    assert_eq!(fb.get_pixel(0, 0), Color { r: 0, g: 56, b: 255 });
    assert_eq!(fb.get_pixel(1, 0), Color { r: 12, g: 149, b: 0 });
}

#[test]
fn rgb8_with_wrong_length_is_refused() {
    assert!(FrameBuffer::from_rgb8(2, 1, &vec![0u8; 5]).is_none());
    assert!(FrameBuffer::from_rgb8(2, 1, &vec![0u8; 7]).is_none());
    assert!(FrameBuffer::from_rgb8(usize::MAX, 2, &vec![0u8; 6]).is_none());
}
