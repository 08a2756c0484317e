use hub75::engine::{bus_write, BusAction, RefreshEngine};
use hub75::hub75::{ChannelMap, Hub75};
use hub75::pins::{PinConfig, Pins};

fn encoder() -> Hub75 {
    let config = PinConfig {
        r1: 12,
        g1: 13,
        b1: 14,
        r2: 15,
        g2: 16,
        b2: 17,
        a: 4,
        b: 5,
        c: 6,
        d: 7,
        e: 8,
        lat: 9,
        oe: 10,
        clk: 3,
    };
    Hub75::new(Pins::new(&config, 32).unwrap(), 5, ChannelMap::canonical()).unwrap()
}

const OE: u32 = 1 << 10;

fn written(a: BusAction) -> u32 {
    match a {
        BusAction::Write { set, clear } => {
            assert_eq!(set & clear, 0);
            set
        }
        BusAction::Halt => panic!("halted"),
    }
}

#[test]
fn writes_are_masked_to_driven_pins() {
    let mask = encoder().get_all_pin_mask();
    let a = bus_write(0xFFFF_FFFF, mask);
    assert_eq!(a, BusAction::Write { set: mask, clear: 0 });
    let a = bus_write(0, mask);
    assert_eq!(a, BusAction::Write { set: 0, clear: mask });
    let a = bus_write(1 << 12 | 1 << 31, mask);
    assert_eq!(a, BusAction::Write { set: 1 << 12, clear: mask & !(1 << 12) });
}

#[test]
fn program_is_replayed_in_order_and_wraps() {
    let h = encoder();
    let mut e = RefreshEngine::new(&h, vec![1 << 12, 1 << 13, 1 << 14]);
    let got: Vec<u32> = (0..7).map(|_| written(e.next())).collect();
    assert_eq!(got, vec![1 << 12, 1 << 13, 1 << 14, 1 << 12, 1 << 13, 1 << 14, 1 << 12]);
}

#[test]
fn new_program_waits_for_cycle_start() {
    let h = encoder();
    let old = vec![1 << 12, 1 << 13, 1 << 14];
    let new = vec![1 << 15, 1 << 16];
    let mut e = RefreshEngine::new(&h, old);
    assert_eq!(written(e.next()), 1 << 12);
    e.install(new);
    // the running cycle is finished first
    assert_eq!(written(e.next()), 1 << 13);
    assert_eq!(written(e.next()), 1 << 14);
    // then the new program starts from its beginning
    assert_eq!(written(e.next()), 1 << 15);
    assert_eq!(written(e.next()), 1 << 16);
    assert_eq!(written(e.next()), 1 << 15);
}

#[test]
fn install_at_cycle_start_takes_effect_at_once() {
    let h = encoder();
    let mut e = RefreshEngine::new(&h, vec![1 << 12]);
    e.install(vec![1 << 17]);
    assert_eq!(written(e.next()), 1 << 17);
}

#[test]
fn full_timeline_swap_never_mixes_rows() {
    let h = encoder();
    let a: Vec<u32> = (0..2 * 197 + 1).map(|_| 1u32 << 12).collect();
    let b: Vec<u32> = (0..2 * 197 + 1).map(|_| 1u32 << 13).collect();
    let mut e = RefreshEngine::new(&h, a);
    for _ in 0..100 {
        assert_eq!(written(e.next()), 1 << 12);
    }
    e.install(b);
    for _ in 100..2 * 197 + 1 {
        assert_eq!(written(e.next()), 1 << 12);
    }
    for _ in 0..2 * 197 + 1 {
        assert_eq!(written(e.next()), 1 << 13);
    }
}

#[test]
fn stop_waits_for_row_boundary_then_disables_output() {
    let h = encoder();
    let words: Vec<u32> = (0..2 * 197 + 1).map(|i| (i as u32 % 7) << 12).collect();
    let mut e = RefreshEngine::new(&h, words.clone());
    for i in 0..5 {
        assert_eq!(written(e.next()), words[i]);
    }
    e.stop();
    for i in 5..197 {
        assert_eq!(written(e.next()), words[i]);
    }
    let last = words[196];
    assert_eq!(e.next(), BusAction::Write { set: last | OE, clear: h.get_all_pin_mask() & !(last | OE) });
    assert!(e.is_halted());
    assert_eq!(e.next(), BusAction::Halt);
    assert_eq!(e.next(), BusAction::Halt);
}

#[test]
fn stop_before_any_write_blanks_the_panel() {
    let h = encoder();
    let mut e = RefreshEngine::new(&h, vec![1 << 12]);
    e.stop();
    assert_eq!(e.next(), BusAction::Write { set: OE, clear: h.get_all_pin_mask() & !OE });
    assert_eq!(e.next(), BusAction::Halt);
}
