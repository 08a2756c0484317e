use vstd::prelude::*;

use crate::bits::{bit, bits_of, is_set};
use crate::color::{lightness, lightness_correct};
use crate::framebuffer::{Color, FrameBuffer};
use crate::pins::{ConfigError, Pins, Role};

verus! {

/// Columns of the panel.
pub const MATRIX_WIDTH: usize = 64;

/// Physical rows of the panel.
pub const MATRIX_HEIGHT: usize = 64;

/// Row addresses: each drives an upper row and the row 32 below it.
pub const SCAN_ROWS: usize = 32;

/// Bus words that load and show one scan row: three per column (data, clock low, clock
/// high), then output disable, latch low, latch high, new row address, output enable.
pub const ROW_WORDS: usize = 197;

/// `2^p`.
pub open spec fn two_pow(p: nat) -> nat
    decreases p,
{
    if p == 0 {
        1
    } else {
        2 * two_pow((p - 1) as nat)
    }
}

/// A colour channel of a pixel.
#[derive(Clone, Copy, Debug, PartialEq, Eq, Structural)]
pub enum Channel {
    Red,
    Green,
    Blue,
}

/// Which pixel channel feeds each data line of an RGB triple. Some panels are wired with
/// their lines in another order than their labels say.
#[derive(Clone, Copy, Debug, PartialEq, Eq, Structural)]
pub struct ChannelMap {
    pub red_line: Channel,
    pub green_line: Channel,
    pub blue_line: Channel,
}

impl ChannelMap {
    /// Every line shows the channel it is named after.
    pub fn canonical() -> (m: ChannelMap)
        ensures
            m == (ChannelMap {
                red_line: Channel::Red,
                green_line: Channel::Green,
                blue_line: Channel::Blue,
            }),
    {
        ChannelMap { red_line: Channel::Red, green_line: Channel::Green, blue_line: Channel::Blue }
    }

    /// The red line shows the blue channel, the green line the red one and the blue line
    /// the green one.
    pub fn blue_red_green() -> (m: ChannelMap)
        ensures
            m == (ChannelMap {
                red_line: Channel::Blue,
                green_line: Channel::Red,
                blue_line: Channel::Green,
            }),
    {
        ChannelMap { red_line: Channel::Blue, green_line: Channel::Red, blue_line: Channel::Green }
    }
}

pub open spec fn channel_value(c: Color, ch: Channel) -> u8 {
    match ch {
        Channel::Red => c.r,
        Channel::Green => c.g,
        Channel::Blue => c.b,
    }
}

fn channel_of(c: Color, ch: Channel) -> (v: u8)
    ensures
        v == channel_value(c, ch),
{
    match ch {
        Channel::Red => c.r,
        Channel::Green => c.g,
        Channel::Blue => c.b,
    }
}

/// Whether the lightness-corrected `value` has the bit of bit plane `plane` set, when the
/// top `depth` bits are shown (bit `8 - depth + plane`).
pub open spec fn plane_bit(value: u8, depth: u8, plane: u8) -> bool {
    (lightness(value) >> ((8 - depth + plane) as u8)) & 1u8 == 1u8
}

fn plane_bit_of(value: u8, depth: u8, plane: u8) -> (r: bool)
    requires
        plane < depth <= 8,
    ensures
        r == plane_bit(value, depth, plane),
{
    let offset: u8 = 8 - depth + plane;
    (lightness_correct(value) >> offset) & 1u8 == 1u8
}

/// The level of every output line at one instant. `oe` high disables the output.
#[derive(Clone, Copy, Debug, PartialEq, Eq, Structural)]
pub struct Lines {
    pub r1: bool,
    pub g1: bool,
    pub b1: bool,
    pub r2: bool,
    pub g2: bool,
    pub b2: bool,
    pub addr: u8,
    pub clk: bool,
    pub lat: bool,
    pub oe: bool,
}

impl Lines {
    /// Levels in role order; the address lines A..E carry bits 0..4 of `addr`.
    pub open spec fn levels(self) -> Seq<bool> {
        seq![
            self.r1, self.g1, self.b1, self.r2, self.g2, self.b2,
            self.addr % 2 == 1,
            (self.addr / 2) % 2 == 1,
            (self.addr / 4) % 2 == 1,
            (self.addr / 8) % 2 == 1,
            (self.addr / 16) % 2 == 1,
            self.clk, self.lat, self.oe,
        ]
    }

    fn level_array(&self) -> (r: [bool; 14])
        ensures
            r@ == self.levels(),
    {
        let r = [
            self.r1,
            self.g1,
            self.b1,
            self.r2,
            self.g2,
            self.b2,
            self.addr % 2 == 1,
            (self.addr / 2) % 2 == 1,
            (self.addr / 4) % 2 == 1,
            (self.addr / 8) % 2 == 1,
            (self.addr / 16) % 2 == 1,
            self.clk,
            self.lat,
            self.oe,
        ];
        assert(r@ =~= self.levels());
        r
    }
}

/// A frame had other dimensions than 64 x 64.
#[derive(Clone, Copy, Debug, PartialEq, Eq, Structural)]
pub struct DimensionError {
    pub width: usize,
    pub height: usize,
}

/// The BCM encoder of one panel: pin assignment, colour depth and channel wiring.
pub struct Hub75 {
    pins: Pins,
    depth: u8,
    channels: ChannelMap,
}

impl Hub75 {
    pub closed spec fn pins_spec(self) -> Pins {
        self.pins
    }

    /// Number of bit planes shown.
    pub closed spec fn depth_spec(self) -> u8 {
        self.depth
    }

    pub closed spec fn channels_spec(self) -> ChannelMap {
        self.channels
    }

    pub open spec fn wf(self) -> bool {
        self.pins_spec().wf() && 5 <= self.depth_spec() <= 8
    }

    /// An encoder that shows the top `depth` bits of each corrected channel.
    pub fn new(pins: Pins, depth: u8, channels: ChannelMap) -> (r: Result<Hub75, ConfigError>)
        requires
            pins.wf(),
        ensures
            r is Ok <==> 5 <= depth <= 8,
            r matches Ok(h) ==> {
                &&& h.wf()
                &&& h.pins_spec() == pins
                &&& h.depth_spec() == depth
                &&& h.channels_spec() == channels
            },
            r matches Err(e) ==> e == (ConfigError::InvalidDepth { depth }),
    {
        if depth < 5 || depth > 8 {
            return Err(ConfigError::InvalidDepth { depth });
        }
        Ok(Hub75 { pins, depth, channels })
    }

    pub fn depth(&self) -> (r: u8)
        ensures
            r == self.depth_spec(),
    {
        self.depth
    }

    pub fn pins(&self) -> (r: &Pins)
        ensures
            *r == self.pins_spec(),
    {
        &self.pins
    }

    /// OR of every bit that the panel's signals drive.
    pub fn get_all_pin_mask(&self) -> (r: u32)
        requires
            self.wf(),
        ensures
            r == self.pins_spec().driven_mask_spec(),
    {
        self.pins.driven_mask()
    }

    /// The safe resting state of the bus: output disabled, every other line low.
    pub fn idle_word(&self) -> (r: u32)
        requires
            self.wf(),
        ensures
            r == bit(self.pins_spec().pos(Role::Oe)),
    {
        let oe = self.pins.position(Role::Oe);
        assert(self.pins_spec().positions()[13] < 32);
        1u32 << oe
    }

    /// `w` with the output disabled.
    pub fn disable_output(&self, w: u32) -> (r: u32)
        requires
            self.wf(),
        ensures
            r == w | bit(self.pins_spec().pos(Role::Oe)),
    {
        let oe = self.pins.position(Role::Oe);
        assert(self.pins_spec().positions()[13] < 32);
        w | (1u32 << oe)
    }

    /// The bus word that puts the lines at `l`.
    pub open spec fn word(self, l: Lines) -> u32 {
        bits_of(self.pins_spec().positions(), l.levels())
    }

    /// Whether the line of `role` is high in bus word `w`.
    pub open spec fn line(self, w: u32, role: Role) -> bool {
        is_set(w, self.pins_spec().pos(role))
    }

    /// The lines at step `o` (0..197) of loading scan row `row` of bit plane `plane`.
    ///
    /// The six data lines carry column `o / 3` of the upper row `row` and the lower row
    /// `row + 32` (the last column from step 192 on). While the columns are clocked in, the
    /// address still names the row shown before, `(row + 31) % 32`, and the output stays on.
    /// Then the output is disabled, the latch pulses low and high, the address moves to
    /// `row` and the output is enabled again.
    pub open spec fn row_lines(self, fb: FrameBuffer, plane: u8, row: int, o: int) -> Lines {
        let col = if o < 192 {
            o / 3
        } else {
            63
        };
        let up = fb.pixel(col, row);
        let low = fb.pixel(col, row + 32);
        let m = self.channels_spec();
        let d = self.depth_spec();
        let shown = ((row + 31) % 32) as u8;
        let r1 = plane_bit(channel_value(up, m.red_line), d, plane);
        let g1 = plane_bit(channel_value(up, m.green_line), d, plane);
        let b1 = plane_bit(channel_value(up, m.blue_line), d, plane);
        let r2 = plane_bit(channel_value(low, m.red_line), d, plane);
        let g2 = plane_bit(channel_value(low, m.green_line), d, plane);
        let b2 = plane_bit(channel_value(low, m.blue_line), d, plane);
        let addr = if o < 195 {
            shown
        } else {
            row as u8
        };
        let clk = !(o < 192 && o % 3 == 1);
        let lat = o != 193;
        let oe = 192 <= o < 196;
        Lines { r1, g1, b1, r2, g2, b2, addr, clk, lat, oe }
    }

    /// The words that load and show scan row `row` of plane `plane`.
    pub open spec fn row_words(self, fb: FrameBuffer, plane: u8, row: int) -> Seq<u32> {
        Seq::new(197, |o: int| self.word(self.row_lines(fb, plane, row, o)))
    }

    /// Rows `0..n` of one scan of plane `plane`, in order.
    pub open spec fn scan_rows(self, fb: FrameBuffer, plane: u8, n: nat) -> Seq<u32>
        decreases n,
    {
        if n == 0 {
            Seq::empty()
        } else {
            self.scan_rows(fb, plane, (n - 1) as nat) + self.row_words(fb, plane, n - 1)
        }
    }

    /// One full scan of all 32 rows of plane `plane`.
    pub open spec fn full_scan(self, fb: FrameBuffer, plane: u8) -> Seq<u32> {
        self.scan_rows(fb, plane, 32)
    }

    /// `n` full scans of plane `plane`, one after another.
    pub open spec fn repeated_scans(self, fb: FrameBuffer, plane: u8, n: nat) -> Seq<u32>
        decreases n,
    {
        if n == 0 {
            Seq::empty()
        } else {
            self.repeated_scans(fb, plane, (n - 1) as nat) + self.full_scan(fb, plane)
        }
    }

    /// Plane `plane` shown for its weight: `2^plane` full scans.
    pub open spec fn plane_block(self, fb: FrameBuffer, plane: u8) -> Seq<u32> {
        self.repeated_scans(fb, plane, two_pow(plane as nat))
    }

    /// The blocks of planes `depth - 1` down to `p`, most significant first.
    pub open spec fn planes_from(self, fb: FrameBuffer, p: nat) -> Seq<u32>
        decreases self.depth_spec() - p,
    {
        if p >= self.depth_spec() {
            Seq::empty()
        } else {
            self.planes_from(fb, p + 1) + self.plane_block(fb, p as u8)
        }
    }

    /// The last step of a cycle: the lines of the last row with the output disabled.
    pub open spec fn final_word(self, fb: FrameBuffer) -> u32 {
        self.word(self.row_lines(fb, 0, 31, 195))
    }

    /// One complete refresh cycle: every plane from the most significant down, each for its
    /// weight, then the output disabled.
    pub open spec fn timeline(self, fb: FrameBuffer) -> Seq<u32> {
        self.planes_from(fb, 0).push(self.final_word(fb))
    }

    fn row_lines_of(&self, fb: &FrameBuffer, plane: u8, row: usize, o: usize) -> (l: Lines)
        requires
            self.wf(),
            fb.wf(),
            plane < self.depth_spec(),
            row < 32,
            o < 197,
        ensures
            l == self.row_lines(*fb, plane, row as int, o as int),
    {
        let col: usize = if o < 192 {
            o / 3
        } else {
            63
        };
        let up = fb.get_pixel(col, row);
        let low = fb.get_pixel(col, row + 32);
        let m = self.channels;
        let d = self.depth;
        let shown: u8 = ((row + 31) % 32) as u8;
        let r1 = plane_bit_of(channel_of(up, m.red_line), d, plane);
        let g1 = plane_bit_of(channel_of(up, m.green_line), d, plane);
        let b1 = plane_bit_of(channel_of(up, m.blue_line), d, plane);
        let r2 = plane_bit_of(channel_of(low, m.red_line), d, plane);
        let g2 = plane_bit_of(channel_of(low, m.green_line), d, plane);
        let b2 = plane_bit_of(channel_of(low, m.blue_line), d, plane);
        let addr: u8 = if o < 195 {
            shown
        } else {
            row as u8
        };
        let clk = !(o < 192 && o % 3 == 1);
        let lat = o != 193;
        let oe = 192 <= o && o < 196;
        Lines { r1, g1, b1, r2, g2, b2, addr, clk, lat, oe }
    }

    fn word_of(&self, l: &Lines) -> (w: u32)
        requires
            self.wf(),
        ensures
            w == self.word(*l),
    {
        self.pins.encode(&l.level_array())
    }

    fn push_row(&self, out: &mut Vec<u32>, fb: &FrameBuffer, plane: u8, row: usize)
        requires
            self.wf(),
            fb.wf(),
            plane < self.depth_spec(),
            row < 32,
        ensures
            final(out)@ == old(out)@ + self.row_words(*fb, plane, row as int),
    {
        let ghost start = out@;
        let mut o: usize = 0;
        while o < 197
            invariant
                self.wf(),
                fb.wf(),
                plane < self.depth_spec(),
                row < 32,
                o <= 197,
                out@ == start + self.row_words(*fb, plane, row as int).take(o as int),
            decreases 197 - o,
        {
            let l = self.row_lines_of(fb, plane, row, o);
            let w = self.word_of(&l);
            out.push(w);
            o = o + 1;
            assert(out@ =~= start + self.row_words(*fb, plane, row as int).take(o as int));
        }
        assert(self.row_words(*fb, plane, row as int).take(197) =~= self.row_words(
            *fb,
            plane,
            row as int,
        ));
    }

    /// The 197 bus words that load and show scan row `row` of plane `plane` of a 64 x 64
    /// frame: the unit of work when rows are encoded one at a time while being shown.
    pub fn row_program(&self, fb: &FrameBuffer, plane: u8, row: usize) -> (r: Vec<u32>)
        requires
            self.wf(),
            fb.wf(),
            fb.width_spec() == 64,
            fb.height_spec() == 64,
            plane < self.depth_spec(),
            row < 32,
        ensures
            r@ == self.row_words(*fb, plane, row as int),
    {
        let mut r: Vec<u32> = Vec::new();
        self.push_row(&mut r, fb, plane, row);
        assert(r@ =~= self.row_words(*fb, plane, row as int));
        r
    }

    /// Unrolls a 64 x 64 frame into one complete refresh cycle of bus words.
    pub fn render_unoptimized(&self, fb: &FrameBuffer) -> (r: Result<Vec<u32>, DimensionError>)
        requires
            self.wf(),
            fb.wf(),
        ensures
            r is Ok <==> fb.width_spec() == 64 && fb.height_spec() == 64,
            r matches Ok(words) ==> words@ == self.timeline(*fb),
            r matches Err(e) ==> e == (DimensionError {
                width: fb.width_spec(),
                height: fb.height_spec(),
            }),
    {
        if fb.width() != MATRIX_WIDTH || fb.height() != MATRIX_HEIGHT {
            return Err(DimensionError { width: fb.width(), height: fb.height() });
        }
        let mut out: Vec<u32> = Vec::new();
        let mut p: u8 = self.depth;
        while p > 0
            invariant
                self.wf(),
                fb.wf(),
                p <= self.depth_spec(),
                out@ == self.planes_from(*fb, p as nat),
            decreases p,
        {
            let plane: u8 = p - 1;
            let ghost base = out@;
            let repeats = plane_weight(plane);
            let mut rep: usize = 0;
            while rep < repeats
                invariant
                    self.wf(),
                    fb.wf(),
                    plane < self.depth_spec(),
                    rep <= repeats,
                    out@ == base + self.repeated_scans(*fb, plane, rep as nat),
                decreases repeats - rep,
            {
                let ghost before_scan = out@;
                let mut row: usize = 0;
                while row < SCAN_ROWS
                    invariant
                        self.wf(),
                        fb.wf(),
                        plane < self.depth_spec(),
                        row <= 32,
                        out@ == before_scan + self.scan_rows(*fb, plane, row as nat),
                    decreases 32 - row,
                {
                    self.push_row(&mut out, fb, plane, row);
                    row = row + 1;
                    assert(out@ =~= before_scan + self.scan_rows(*fb, plane, row as nat));
                }
                rep = rep + 1;
                assert(out@ =~= base + self.repeated_scans(*fb, plane, rep as nat));
            }
            assert(out@ =~= self.planes_from(*fb, plane as nat));
            p = plane;
        }
        let last = self.row_lines_of(fb, 0, 31, 195);
        let w = self.word_of(&last);
        out.push(w);
        Ok(out)
    }
}

/// How many full scans plane `plane` is shown for: `2^plane`.
pub fn plane_weight(plane: u8) -> (r: usize)
    requires
        plane < 8,
    ensures
        r == two_pow(plane as nat),
{
    proof {
        lemma_two_pow_small();
    }
    let mut r: usize = 1;
    let mut i: u8 = 0;
    while i < plane
        invariant
            i <= plane < 8,
            r == two_pow(i as nat),
            forall|k: nat| k <= 7 ==> #[trigger] two_pow(k) <= 128,
        decreases plane - i,
    {
        r = r * 2;
        i = i + 1;
    }
    r
}

/// `2^p` for the plane numbers in use.
proof fn lemma_two_pow_small()
    ensures
        forall|k: nat| k <= 7 ==> #[trigger] two_pow(k) <= 128,
{
    assert(two_pow(0) == 1);
    assert(two_pow(1) == 2);
    assert(two_pow(2) == 4);
    assert(two_pow(3) == 8);
    assert(two_pow(4) == 16);
    assert(two_pow(5) == 32);
    assert(two_pow(6) == 64);
    assert(two_pow(7) == 128);
}

} // verus!
