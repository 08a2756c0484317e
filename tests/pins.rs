use hub75::pins::{ConfigError, PinConfig, Pins, Role};

fn board_config() -> PinConfig {
    PinConfig {
        r1: 12,
        g1: 13,
        b1: 14,
        r2: 15,
        g2: 16,
        b2: 17,
        a: 4,
        b: 5,
        c: 6,
        d: 7,
        e: 8,
        lat: 9,
        oe: 10,
        clk: 3,
    }
}

#[test]
fn valid_assignment_derives_masks() {
    let pins = Pins::new(&board_config(), 32).unwrap();
    assert_eq!(pins.rgb_mask(), 0x3F000);
    assert_eq!(pins.addr_mask(), 0x1F0);
    assert_eq!(pins.driven_mask(), 0x3F000 | 0x1F0 | (1 << 3) | (1 << 9) | (1 << 10));
    assert_eq!(pins.width(), 32);
    assert_eq!(pins.position(Role::R1), 12);
    assert_eq!(pins.position(Role::Clk), 3);
    assert_eq!(pins.position(Role::Oe), 10);
}

#[test]
fn derived_masks_are_disjoint() {
    let pins = Pins::new(&board_config(), 32).unwrap();
    let control = (1u32 << pins.position(Role::Clk))
        | (1u32 << pins.position(Role::Lat))
        | (1u32 << pins.position(Role::Oe));
    assert_eq!(pins.rgb_mask() & pins.addr_mask(), 0);
    assert_eq!(pins.rgb_mask() & control, 0);
    assert_eq!(pins.addr_mask() & control, 0);
    assert_eq!(pins.driven_mask().count_ones(), 14);
}

#[test]
fn r1_and_lat_on_one_bit_is_refused() {
    let mut config = board_config();
    config.r1 = 5;
    config.lat = 5;
    config.b = 20;
    let r = Pins::new(&config, 32);
    assert_eq!(r.err(), Some(ConfigError::Collision { first: Role::R1, second: Role::Lat }));
}

#[test]
fn collision_reports_first_pair() {
    let mut config = board_config();
    config.oe = 4;
    let r = Pins::new(&config, 32);
    assert_eq!(r.err(), Some(ConfigError::Collision { first: Role::A, second: Role::Oe }));
}

#[test]
fn position_beyond_width_is_refused() {
    let r = Pins::new(&board_config(), 16);
    assert_eq!(r.err(), Some(ConfigError::OutOfRange { role: Role::G2, position: 16 }));
}

#[test]
fn negative_position_is_refused() {
    let mut config = board_config();
    config.e = -1;
    let r = Pins::new(&config, 32);
    assert_eq!(r.err(), Some(ConfigError::OutOfRange { role: Role::E, position: -1 }));
}

#[test]
fn width_must_fit_one_word() {
    assert_eq!(Pins::new(&board_config(), 0).err(), Some(ConfigError::InvalidWidth { width: 0 }));
    assert_eq!(Pins::new(&board_config(), 33).err(), Some(ConfigError::InvalidWidth { width: 33 }));
    assert!(Pins::new(&board_config(), 18).is_ok());
}

#[test]
fn default_config_needs_a_wider_register() {
    let config = PinConfig::default();
    assert_eq!(config.r1, 38);
    assert_eq!(config.clk, 0);
    let r = Pins::new(&config, 32);
    assert_eq!(r.err(), Some(ConfigError::OutOfRange { role: Role::R1, position: 38 }));
}

#[test]
fn position_list_in_role_order() {
    let pins = Pins::new(&board_config(), 32).unwrap();
    assert_eq!(pins.position_list(), vec![12, 13, 14, 15, 16, 17, 4, 5, 6, 7, 8, 3, 9, 10]);
}
