use hub75::framebuffer::{Color, FrameBuffer};
use hub75::hub75::{ChannelMap, DimensionError, Hub75};
use hub75::panel::{
    display_blank_screen, display_color_screen, display_test_pattern, initialize_panel,
    MatrixPanel, PanelError,
};
use hub75::pins::{PinConfig, Pins};

fn encoder(depth: u8) -> Hub75 {
    let config = PinConfig {
        r1: 12,
        g1: 13,
        b1: 14,
        r2: 15,
        g2: 16,
        b2: 17,
        a: 4,
        b: 5,
        c: 6,
        d: 7,
        e: 8,
        lat: 9,
        oe: 10,
        clk: 3,
    };
    Hub75::new(Pins::new(&config, 32).unwrap(), depth, ChannelMap::canonical()).unwrap()
}

#[test]
fn new_panel_is_blank_and_idle() {
    let p = MatrixPanel::new(encoder(5));
    assert!(!p.is_initialized());
    assert!(!p.is_running());
    assert_eq!(p.snapshot().width(), 64);
    assert_eq!(p.snapshot().height(), 64);
    assert_eq!(p.snapshot().get_pixel(63, 63), Color::black());
}

#[test]
fn begin_starts_once() {
    let mut p = MatrixPanel::new(encoder(5));
    assert!(p.begin());
    assert!(p.is_initialized() && p.is_running());
    p.stop();
    assert!(!p.is_running());
    assert!(p.begin());
    assert!(!p.is_running());
}

#[test]
fn display_needs_a_started_panel() {
    let mut p = MatrixPanel::new(encoder(5));
    assert_eq!(display_blank_screen(&mut p), Err(PanelError::NotInitialized));
    assert_eq!(display_color_screen(&mut p, 1, 2, 3), Err(PanelError::NotInitialized));
    assert_eq!(display_test_pattern(&mut p), Err(PanelError::NotInitialized));
    assert_eq!(p.snapshot().get_pixel(0, 0), Color::black());
}

#[test]
fn color_screen_and_blank_screen() {
    let mut p = initialize_panel(encoder(5));
    assert!(p.is_running());
    assert_eq!(display_color_screen(&mut p, 10, 20, 30), Ok(()));
    assert_eq!(p.snapshot().get_pixel(5, 60), Color { r: 10, g: 20, b: 30 });
    assert_eq!(display_blank_screen(&mut p), Ok(()));
    assert_eq!(p.snapshot().get_pixel(5, 60), Color::black());
}

#[test]
fn test_pattern_has_three_stripes() {
    let mut p = initialize_panel(encoder(5));
    assert_eq!(display_test_pattern(&mut p), Ok(()));
    for y in 0..64 {
        for x in 0..64 {
            let expect = if x < 21 {
                Color::red()
            } else if x < 42 {
                Color::green()
            } else {
                Color::blue()
            };
            assert_eq!(p.snapshot().get_pixel(x, y), expect);
        }
    }
}

#[test]
fn replace_swaps_the_whole_frame() {
    let mut p = initialize_panel(encoder(5));
    let mut fb = FrameBuffer::new(64, 64);
    fb.fill(Color::green());
    assert_eq!(p.replace(fb), Ok(()));
    assert_eq!(p.snapshot().get_pixel(33, 33), Color::green());
    let small = FrameBuffer::new(32, 32);
    assert_eq!(p.replace(small), Err(DimensionError { width: 32, height: 32 }));
    assert_eq!(p.snapshot().get_pixel(33, 33), Color::green());
}

#[test]
fn set_pixel_outside_is_ignored() {
    let mut p = initialize_panel(encoder(5));
    p.set_pixel(64, 0, Color::red());
    p.set_pixel(1, 2, Color::red());
    assert_eq!(p.snapshot().get_pixel(1, 2), Color::red());
    assert_eq!(p.snapshot().get_pixel(0, 0), Color::black());
}

#[test]
fn direct_refresh_walks_the_timeline_row_by_row() {
    let mut p = initialize_panel(encoder(5));
    display_test_pattern(&mut p).unwrap();
    let timeline = p.render();
    let rows = (timeline.len() - 1) / 197;
    assert_eq!(rows, 32 * 31);
    for k in 0..rows {
        let words = p.refresh_row().unwrap();
        assert_eq!(&words[..], &timeline[k * 197..(k + 1) * 197], "row step {}", k);
    }
    // the next cycle starts over at the most significant plane
    let words = p.refresh_row().unwrap();
    assert_eq!(&words[..], &timeline[0..197]);
}

#[test]
fn direct_refresh_stops() {
    let mut p = initialize_panel(encoder(6));
    assert!(p.refresh_row().is_some());
    p.stop();
    assert!(p.refresh_row().is_none());
}
