use vstd::prelude::*;

verus! {

/// PWM duty levels of a perceptual lightness curve, brightest first: entry `v` is the
/// off-time (out of 65535) that makes a linear input `v` look evenly spaced to the eye.
pub const PWM_TABLE: [u16; 256] = [
    65535, 65508, 65479, 65451, 65422, 65394, 65365, 65337, 65308, 65280, 65251, 65223,
    65195, 65166, 65138, 65109, 65081, 65052, 65024, 64995, 64967, 64938, 64909, 64878,
    64847, 64815, 64781, 64747, 64711, 64675, 64637, 64599, 64559, 64518, 64476, 64433,
    64389, 64344, 64297, 64249, 64200, 64150, 64099, 64046, 63992, 63937, 63880, 63822,
    63763, 63702, 63640, 63577, 63512, 63446, 63379, 63310, 63239, 63167, 63094, 63019,
    62943, 62865, 62785, 62704, 62621, 62537, 62451, 62364, 62275, 62184, 62092, 61998,
    61902, 61804, 61705, 61604, 61501, 61397, 61290, 61182, 61072, 60961, 60847, 60732,
    60614, 60495, 60374, 60251, 60126, 59999, 59870, 59739, 59606, 59471, 59334, 59195,
    59053, 58910, 58765, 58618, 58468, 58316, 58163, 58007, 57848, 57688, 57525, 57361,
    57194, 57024, 56853, 56679, 56503, 56324, 56143, 55960, 55774, 55586, 55396, 55203,
    55008, 54810, 54610, 54408, 54203, 53995, 53785, 53572, 53357, 53140, 52919, 52696,
    52471, 52243, 52012, 51778, 51542, 51304, 51062, 50818, 50571, 50321, 50069, 49813,
    49555, 49295, 49031, 48764, 48495, 48223, 47948, 47670, 47389, 47105, 46818, 46529,
    46236, 45940, 45641, 45340, 45035, 44727, 44416, 44102, 43785, 43465, 43142, 42815,
    42486, 42153, 41817, 41478, 41135, 40790, 40441, 40089, 39733, 39375, 39013, 38647,
    38279, 37907, 37531, 37153, 36770, 36385, 35996, 35603, 35207, 34808, 34405, 33999,
    33589, 33175, 32758, 32338, 31913, 31486, 31054, 30619, 30181, 29738, 29292, 28843,
    28389, 27932, 27471, 27007, 26539, 26066, 25590, 25111, 24627, 24140, 23649, 23153,
    22654, 22152, 21645, 21134, 20619, 20101, 19578, 19051, 18521, 17986, 17447, 16905,
    16358, 15807, 15252, 14693, 14129, 13562, 12990, 12415, 11835, 11251, 10662, 10070,
    9473, 8872, 8266, 7657, 7043, 6424, 5802, 5175, 4543, 3908, 3267, 2623,
    1974, 1320, 662, 0,
];

/// A gamma 2.2 curve: entry `v` is `round(255 * (v / 255)^2.2)`.
pub const GAMMA_TABLE: [u8; 256] = [
    0, 0, 0, 0, 0, 0, 0, 0, 0, 0, 0, 0, 0, 0, 0, 1,
    1, 1, 1, 1, 1, 1, 1, 1, 1, 2, 2, 2, 2, 2, 2, 2,
    3, 3, 3, 3, 3, 4, 4, 4, 4, 5, 5, 5, 5, 6, 6, 6,
    6, 7, 7, 7, 8, 8, 8, 9, 9, 9, 10, 10, 11, 11, 11, 12,
    12, 13, 13, 13, 14, 14, 15, 15, 16, 16, 17, 17, 18, 18, 19, 19,
    20, 20, 21, 22, 22, 23, 23, 24, 25, 25, 26, 26, 27, 28, 28, 29,
    30, 30, 31, 32, 33, 33, 34, 35, 35, 36, 37, 38, 39, 39, 40, 41,
    42, 43, 43, 44, 45, 46, 47, 48, 49, 49, 50, 51, 52, 53, 54, 55,
    56, 57, 58, 59, 60, 61, 62, 63, 64, 65, 66, 67, 68, 69, 70, 71,
    73, 74, 75, 76, 77, 78, 79, 81, 82, 83, 84, 85, 87, 88, 89, 90,
    91, 93, 94, 95, 97, 98, 99, 100, 102, 103, 105, 106, 107, 109, 110, 111,
    113, 114, 116, 117, 119, 120, 121, 123, 124, 126, 127, 129, 130, 132, 133, 135,
    137, 138, 140, 141, 143, 145, 146, 148, 149, 151, 153, 154, 156, 158, 159, 161,
    163, 165, 166, 168, 170, 172, 173, 175, 177, 179, 181, 182, 184, 186, 188, 190,
    192, 194, 196, 197, 199, 201, 203, 205, 207, 209, 211, 213, 215, 217, 219, 221,
    223, 225, 227, 229, 231, 234, 236, 238, 240, 242, 244, 246, 248, 251, 253, 255,
];

/// The lightness-corrected value of a linear channel value.
pub open spec fn lightness(v: u8) -> u8 {
    ((65535 - PWM_TABLE[v as int]) / 256) as u8
}

/// The gamma-corrected value of a raw channel value.
pub open spec fn gamma(v: u8) -> u8 {
    GAMMA_TABLE[v as int]
}

/// Maps a linear 8-bit channel value to the 8-bit value whose bit planes the panel shows.
pub fn lightness_correct(value: u8) -> (r: u8)
    ensures
        r == lightness(value),
{
    let corrected_16bit: u16 = PWM_TABLE[value as usize];
    // the table runs from bright to dark, so invert it before keeping the high byte
    let inverted_16bit: u16 = 65535 - corrected_16bit;
    (inverted_16bit / 256) as u8
}

/// Maps a raw 8-bit channel value of a source image onto the gamma 2.2 curve.
pub fn gamma_correct(value: u8) -> (r: u8)
    ensures
        r == gamma(value),
{
    GAMMA_TABLE[value as usize]
}

proof fn lemma_lightness_step(a: u8)
    requires
        a < 255,
    ensures
        lightness(a) <= lightness((a + 1) as u8),
{
}

proof fn lemma_gamma_step(a: u8)
    requires
        a < 255,
    ensures
        gamma(a) <= gamma((a + 1) as u8),
{
}

/// Lightness correction is monotonic non-decreasing over the whole 8-bit range, keeps
/// black at 0 and full scale at 255.
pub proof fn lemma_lightness_monotonic(a: u8, b: u8)
    requires
        a <= b,
    ensures
        lightness(a) <= lightness(b),
        lightness(0) == 0,
        lightness(255) == 255,
    decreases b - a,
{
    if a < b {
        lemma_lightness_step(a);
        lemma_lightness_monotonic((a + 1) as u8, b);
    }
}

/// Gamma correction is monotonic non-decreasing over the whole 8-bit range, keeps black
/// at 0 and full scale at 255.
pub proof fn lemma_gamma_monotonic(a: u8, b: u8)
    requires
        a <= b,
    ensures
        gamma(a) <= gamma(b),
        gamma(0) == 0,
        gamma(255) == 255,
    decreases b - a,
{
    if a < b {
        lemma_gamma_step(a);
        lemma_gamma_monotonic((a + 1) as u8, b);
    }
}

} // verus!
