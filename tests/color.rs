use hub75::color::{gamma_correct, lightness_correct};

#[test]
fn lightness_keeps_both_ends() {
    assert_eq!(lightness_correct(0), 0);
    assert_eq!(lightness_correct(255), 255);
}

#[test]
fn lightness_is_monotonic() {
    for v in 0..255u8 {
        assert!(lightness_correct(v) <= lightness_correct(v + 1), "at {}", v);
    }
}

#[test]
fn lightness_known_values() {
    assert_eq!(lightness_correct(64), 11);
    assert_eq!(lightness_correct(128), 47);
    assert_eq!(lightness_correct(200), 138);
}

#[test]
fn gamma_keeps_both_ends() {
    assert_eq!(gamma_correct(0), 0);
    assert_eq!(gamma_correct(255), 255);
}

#[test]
fn gamma_is_monotonic() {
    for v in 0..255u8 {
        assert!(gamma_correct(v) <= gamma_correct(v + 1), "at {}", v);
    }
}

#[test]
fn gamma_known_values() {
    assert_eq!(gamma_correct(64), 12);
    assert_eq!(gamma_correct(128), 56);
    assert_eq!(gamma_correct(200), 149);
}
