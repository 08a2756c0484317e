use hub75::framebuffer::{Color, FrameBuffer};
use hub75::hub75::{ChannelMap, DimensionError, Hub75, ROW_WORDS};
use hub75::pins::{ConfigError, PinConfig, Pins, Role};

fn board_pins() -> Pins {
    let config = PinConfig {
        r1: 12,
        g1: 13,
        b1: 14,
        r2: 15,
        g2: 16,
        b2: 17,
        a: 4,
        b: 5,
        c: 6,
        d: 7,
        e: 8,
        lat: 9,
        oe: 10,
        clk: 3,
    };
    Pins::new(&config, 32).unwrap()
}

fn encoder(depth: u8) -> Hub75 {
    Hub75::new(board_pins(), depth, ChannelMap::canonical()).unwrap()
}

fn high(w: u32, pins: &Pins, role: Role) -> bool {
    w & (1u32 << pins.position(role)) != 0
}

fn filled(color: Color) -> FrameBuffer {
    let mut fb = FrameBuffer::new(64, 64);
    fb.fill(color);
    fb
}

fn scan_length(depth: u32) -> usize {
    (0..depth).map(|p| (1usize << p) * 32 * (1 + 64 * 3 + 4)).sum()
}

const RGB: [Role; 6] = [Role::R1, Role::G1, Role::B1, Role::R2, Role::G2, Role::B2];

#[test]
fn depth_outside_five_to_eight_is_refused() {
    for depth in [0u8, 4, 9] {
        let r = Hub75::new(board_pins(), depth, ChannelMap::canonical());
        assert_eq!(r.err(), Some(ConfigError::InvalidDepth { depth }));
    }
    for depth in 5..=8u8 {
        assert_eq!(encoder(depth).depth(), depth);
    }
}

#[test]
fn frame_of_other_size_is_refused() {
    let h = encoder(5);
    let fb = FrameBuffer::new(64, 32);
    assert_eq!(h.render_unoptimized(&fb).err(), Some(DimensionError { width: 64, height: 32 }));
    let fb = FrameBuffer::new(128, 64);
    assert_eq!(h.render_unoptimized(&fb).err(), Some(DimensionError { width: 128, height: 64 }));
}

#[test]
fn timeline_length_matches_formula() {
    for depth in 5..=8u8 {
        let words = encoder(depth).render_unoptimized(&filled(Color::black())).unwrap();
        assert_eq!(words.len(), scan_length(depth as u32) + 1);
    }
    let words = encoder(5).render_unoptimized(&filled(Color::black())).unwrap();
    assert_eq!(words.len(), 197 * 32 * 31 + 1);
}

#[test]
fn black_frame_has_no_rgb_and_disables_only_to_latch() {
    let pins = board_pins();
    let words = encoder(5).render_unoptimized(&filled(Color::black())).unwrap();
    let n = words.len();
    for (i, &w) in words.iter().enumerate() {
        for role in RGB {
            assert!(!high(w, &pins, role), "word {} role {:?}", i, role);
        }
        if i + 1 < n {
            let step = i % ROW_WORDS;
            assert_eq!(high(w, &pins, Role::Oe), (192..196).contains(&step), "word {}", i);
        }
    }
    assert!(high(words[n - 1], &pins, Role::Oe));
}

#[test]
fn first_word_of_black_frame() {
    let words = encoder(5).render_unoptimized(&filled(Color::black())).unwrap();
    // row 0 is clocked in while row 31 stays addressed: A..E high, CLK and LAT high
    assert_eq!(words[0], 0x1F0 | (1 << 3) | (1 << 9));
    // the clock falls on the second word of each column
    assert_eq!(words[1], 0x1F0 | (1 << 9));
    assert_eq!(words[2], words[0]);
}

#[test]
fn row_tail_disables_latches_addresses_and_enables() {
    let pins = board_pins();
    let words = encoder(5).render_unoptimized(&filled(Color::black())).unwrap();
    // second row of the cycle (row 1): words 197..394
    let base = ROW_WORDS;
    let tail = &words[base + 192..base + 197];
    assert!(high(tail[0], &pins, Role::Oe) && high(tail[0], &pins, Role::Lat));
    assert!(!high(tail[1], &pins, Role::Lat) && high(tail[1], &pins, Role::Oe));
    assert!(high(tail[2], &pins, Role::Lat) && high(tail[2], &pins, Role::Oe));
    // address moves from row 0 to row 1 with the output still disabled
    assert!(!high(tail[2], &pins, Role::A));
    assert!(high(tail[3], &pins, Role::A) && high(tail[3], &pins, Role::Oe));
    assert!(!high(tail[3], &pins, Role::B));
    assert!(!high(tail[4], &pins, Role::Oe));
}

#[test]
fn white_frame_shows_top_plane_for_its_weight_first() {
    for depth in 5..=8u8 {
        let h = encoder(depth);
        let fb = filled(Color::white());
        let words = h.render_unoptimized(&fb).unwrap();
        let top = depth - 1;
        let scan: Vec<u32> = (0..32).flat_map(|row| h.row_program(&fb, top, row)).collect();
        let repeats = 1usize << top;
        for k in 0..repeats {
            assert_eq!(&words[k * scan.len()..(k + 1) * scan.len()], &scan[..]);
        }
        let next = h.row_program(&fb, top - 1, 0);
        let start = repeats * scan.len();
        assert_eq!(&words[start..start + ROW_WORDS], &next[..]);
    }
}

#[test]
fn red_frame_drives_only_red_lines() {
    let pins = board_pins();
    for depth in [5u8, 8] {
        let words = encoder(depth).render_unoptimized(&filled(Color::red())).unwrap();
        for (i, &w) in words.iter().enumerate() {
            assert!(high(w, &pins, Role::R1) && high(w, &pins, Role::R2), "word {}", i);
            for role in [Role::G1, Role::B1, Role::G2, Role::B2] {
                assert!(!high(w, &pins, role), "word {}", i);
            }
        }
    }
}

#[test]
fn remapped_channels_move_red_to_green_lines() {
    let pins = board_pins();
    let h = Hub75::new(board_pins(), 5, ChannelMap::blue_red_green()).unwrap();
    let words = h.render_unoptimized(&filled(Color::red())).unwrap();
    for &w in words.iter() {
        assert!(high(w, &pins, Role::G1) && high(w, &pins, Role::G2));
        for role in [Role::R1, Role::B1, Role::R2, Role::B2] {
            assert!(!high(w, &pins, role));
        }
    }
}

#[test]
fn lower_half_drives_second_triple() {
    let pins = board_pins();
    let h = encoder(5);
    let mut fb = FrameBuffer::new(64, 64);
    fb.set_pixel(3, 40, Color::blue());
    // row 8 carries physical rows 8 and 40
    let words = h.row_program(&fb, 4, 8);
    assert_eq!(words.len(), ROW_WORDS);
    for col in 0..64 {
        for k in 0..3 {
            let w = words[3 * col + k];
            assert_eq!(high(w, &pins, Role::B2), col == 3);
            assert!(!high(w, &pins, Role::B1));
        }
    }
    // other rows stay dark
    let other = h.row_program(&fb, 4, 7);
    assert!(other.iter().all(|&w| w & pins.rgb_mask() == 0));
}

#[test]
fn dim_value_only_reaches_low_planes() {
    let pins = board_pins();
    let h = encoder(5);
    let mut fb = FrameBuffer::new(64, 64);
    // lightness 128 -> 47 = 0b0010_1111; shown bits 3..7 are planes 0..4: 1, 0, 1, 0, 0
    fb.fill(Color { r: 128, g: 0, b: 0 });
    let expect = [true, false, true, false, false];
    for plane in 0..5u8 {
        let words = h.row_program(&fb, plane, 0);
        assert_eq!(high(words[0], &pins, Role::R1), expect[plane as usize], "plane {}", plane);
    }
}

#[test]
fn all_pin_mask_and_idle_word() {
    let h = encoder(5);
    assert_eq!(h.get_all_pin_mask(), board_pins().driven_mask());
    assert_eq!(h.idle_word(), 1 << 10);
    assert_eq!(h.disable_output(0x1F0), 0x1F0 | (1 << 10));
}
