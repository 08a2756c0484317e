use vstd::arithmetic::div_mod::{lemma_fundamental_div_mod, lemma_mod_multiples_vanish};
use vstd::prelude::*;

use crate::bits::lemma_bits_of_line;
use crate::color::lemma_lightness_monotonic;
use crate::framebuffer::{Color, FrameBuffer};
use crate::hub75::{plane_bit, two_pow, Channel, ChannelMap, Hub75, Lines};
use crate::panel::next_cursor;
use crate::pins::Role;

verus! {

/// Words in the scans of a cycle at depth `d`: plane `p` is shown for `2^p` scans of 32
/// rows, and a row takes `1 + 64 * 3 + 4` words (output disable, three per column, then
/// latch low, latch high, row address and output enable).
pub open spec fn scan_length(d: nat) -> nat
    decreases d,
{
    if d == 0 {
        0
    } else {
        scan_length((d - 1) as nat) + two_pow((d - 1) as nat) * 32 * (1 + 64 * 3 + 4)
    }
}

/// `a` is a prefix of `b`.
pub open spec fn is_prefix(a: Seq<u32>, b: Seq<u32>) -> bool {
    a.len() <= b.len() && b.subrange(0, a.len() as int) == a
}

/// `s` is made of whole rows of 197 words, and `pred` holds of each word together with its
/// step within its row.
pub open spec fn rows_satisfy(s: Seq<u32>, pred: spec_fn(int, u32) -> bool) -> bool {
    &&& s.len() % 197 == 0
    &&& forall|i: int| 0 <= i < s.len() ==> #[trigger] pred(i % 197, s[i])
}

proof fn lemma_rows_concat(a: Seq<u32>, b: Seq<u32>, pred: spec_fn(int, u32) -> bool)
    requires
        rows_satisfy(a, pred),
        rows_satisfy(b, pred),
    ensures
        rows_satisfy(a + b, pred),
{
    let k = a.len() / 197;
    lemma_fundamental_div_mod(a.len() as int, 197);
    assert((a + b).len() % 197 == 0) by {
        lemma_mod_multiples_vanish(k as int, b.len() as int, 197);
    }
    assert forall|i: int| 0 <= i < (a + b).len() implies #[trigger] pred(i % 197, (a + b)[i]) by {
        if i >= a.len() {
            let j = i - a.len();
            lemma_mod_multiples_vanish(k as int, j, 197);
            assert(pred(j % 197, b[j]));
        } else {
            assert(pred(i % 197, a[i]));
        }
    }
}

impl Hub75 {
    proof fn lemma_rows_in_scan(self, fb: FrameBuffer, plane: u8, n: nat, pred: spec_fn(int, u32) -> bool)
        requires
            forall|row: int, o: int|
                0 <= row < 32 && 0 <= o < 197 ==> #[trigger] pred(
                    o,
                    self.word(self.row_lines(fb, plane, row, o)),
                ),
            n <= 32,
        ensures
            rows_satisfy(self.scan_rows(fb, plane, n), pred),
        decreases n,
    {
        if n > 0 {
            self.lemma_rows_in_scan(fb, plane, (n - 1) as nat, pred);
            let r = self.row_words(fb, plane, n - 1);
            assert forall|i: int| 0 <= i < r.len() implies #[trigger] pred(i % 197, r[i]) by {
                assert(pred(i, self.word(self.row_lines(fb, plane, n - 1, i))));
            }
            lemma_rows_concat(self.scan_rows(fb, plane, (n - 1) as nat), r, pred);
        } else {
            assert(rows_satisfy(Seq::empty(), pred));
        }
    }

    proof fn lemma_rows_in_repeats(self, fb: FrameBuffer, plane: u8, n: nat, pred: spec_fn(int, u32) -> bool)
        requires
            forall|row: int, o: int|
                0 <= row < 32 && 0 <= o < 197 ==> #[trigger] pred(
                    o,
                    self.word(self.row_lines(fb, plane, row, o)),
                ),
        ensures
            rows_satisfy(self.repeated_scans(fb, plane, n), pred),
        decreases n,
    {
        if n > 0 {
            self.lemma_rows_in_repeats(fb, plane, (n - 1) as nat, pred);
            self.lemma_rows_in_scan(fb, plane, 32, pred);
            lemma_rows_concat(
                self.repeated_scans(fb, plane, (n - 1) as nat),
                self.full_scan(fb, plane),
                pred,
            );
        } else {
            assert(rows_satisfy(Seq::empty(), pred));
        }
    }

    proof fn lemma_rows_in_planes(self, fb: FrameBuffer, p: nat, pred: spec_fn(int, u32) -> bool)
        requires
            forall|plane: u8, row: int, o: int|
                plane < self.depth_spec() && 0 <= row < 32 && 0 <= o < 197 ==> #[trigger] pred(
                    o,
                    self.word(self.row_lines(fb, plane, row, o)),
                ),
        ensures
            rows_satisfy(self.planes_from(fb, p), pred),
        decreases self.depth_spec() - p,
    {
        if p < self.depth_spec() {
            self.lemma_rows_in_planes(fb, p + 1, pred);
            let plane = p as u8;
            assert forall|row: int, o: int| 0 <= row < 32 && 0 <= o < 197 implies #[trigger] pred(
                o,
                self.word(self.row_lines(fb, plane, row, o)),
            ) by {}
            self.lemma_rows_in_repeats(fb, plane, two_pow(p), pred);
            lemma_rows_concat(self.planes_from(fb, p + 1), self.plane_block(fb, plane), pred);
        } else {
            assert(rows_satisfy(Seq::empty(), pred));
        }
    }

    proof fn lemma_scan_rows_len(self, fb: FrameBuffer, plane: u8, n: nat)
        ensures
            self.scan_rows(fb, plane, n).len() == n * 197,
        decreases n,
    {
        if n > 0 {
            self.lemma_scan_rows_len(fb, plane, (n - 1) as nat);
        }
    }

    proof fn lemma_repeated_len(self, fb: FrameBuffer, plane: u8, n: nat)
        ensures
            self.repeated_scans(fb, plane, n).len() == n * (32 * 197),
        decreases n,
    {
        if n > 0 {
            self.lemma_repeated_len(fb, plane, (n - 1) as nat);
            self.lemma_scan_rows_len(fb, plane, 32);
            assert(self.repeated_scans(fb, plane, n) == self.repeated_scans(
                fb,
                plane,
                (n - 1) as nat,
            ) + self.full_scan(fb, plane));
            assert((n - 1) * (32 * 197) + 32 * 197 == n * (32 * 197)) by (nonlinear_arith);
        } else {
            assert(self.repeated_scans(fb, plane, n) =~= Seq::<u32>::empty());
        }
    }

    proof fn lemma_planes_len(self, fb: FrameBuffer, p: nat)
        requires
            p <= self.depth_spec(),
        ensures
            self.planes_from(fb, p).len() + scan_length(p) == scan_length(self.depth_spec() as nat),
        decreases self.depth_spec() - p,
    {
        if p < self.depth_spec() {
            self.lemma_planes_len(fb, p + 1);
            self.lemma_repeated_len(fb, p as u8, two_pow(p));
            assert(self.planes_from(fb, p) == self.planes_from(fb, p + 1) + self.plane_block(
                fb,
                p as u8,
            ));
            assert(scan_length(p + 1) == scan_length(p) + two_pow(p) * 32 * (1 + 64 * 3 + 4));
            assert(two_pow(p) * (32 * 197) == two_pow(p) * 32 * (1 + 64 * 3 + 4)) by (nonlinear_arith);
        } else {
            assert(self.planes_from(fb, p) =~= Seq::<u32>::empty());
        }
    }

    proof fn lemma_repeated_prefix(self, fb: FrameBuffer, plane: u8, m: nat, n: nat)
        requires
            m <= n,
        ensures
            is_prefix(self.repeated_scans(fb, plane, m), self.repeated_scans(fb, plane, n)),
        decreases n,
    {
        if m < n {
            self.lemma_repeated_prefix(fb, plane, m, (n - 1) as nat);
            let a = self.repeated_scans(fb, plane, m);
            let b = self.repeated_scans(fb, plane, (n - 1) as nat);
            assert((b + self.full_scan(fb, plane)).subrange(0, a.len() as int) =~= b.subrange(
                0,
                a.len() as int,
            ));
        } else {
            let a = self.repeated_scans(fb, plane, m);
            assert(a.subrange(0, a.len() as int) =~= a);
        }
    }

    proof fn lemma_scan_rows_prefix(self, fb: FrameBuffer, plane: u8, m: nat, n: nat)
        requires
            m <= n,
        ensures
            is_prefix(self.scan_rows(fb, plane, m), self.scan_rows(fb, plane, n)),
        decreases n,
    {
        if m < n {
            self.lemma_scan_rows_prefix(fb, plane, m, (n - 1) as nat);
            let a = self.scan_rows(fb, plane, m);
            let b = self.scan_rows(fb, plane, (n - 1) as nat);
            assert((b + self.row_words(fb, plane, n - 1)).subrange(0, a.len() as int)
                =~= b.subrange(0, a.len() as int));
        } else {
            let a = self.scan_rows(fb, plane, m);
            assert(a.subrange(0, a.len() as int) =~= a);
        }
    }

    proof fn lemma_planes_prefix(self, fb: FrameBuffer, p: nat, q: nat)
        requires
            p <= q,
        ensures
            is_prefix(self.planes_from(fb, q), self.planes_from(fb, p)),
        decreases q - p,
    {
        if p < q && p < self.depth_spec() {
            self.lemma_planes_prefix(fb, p + 1, q);
            let a = self.planes_from(fb, q);
            let b = self.planes_from(fb, p + 1);
            assert(self.planes_from(fb, p) == b + self.plane_block(fb, p as u8));
            assert((b + self.plane_block(fb, p as u8)).subrange(0, a.len() as int) =~= b.subrange(
                0,
                a.len() as int,
            ));
        } else if p < q {
            assert(self.planes_from(fb, q) =~= Seq::<u32>::empty());
            assert(self.planes_from(fb, p) =~= Seq::<u32>::empty());
            assert(Seq::<u32>::empty().subrange(0, 0) =~= Seq::<u32>::empty());
        } else {
            let a = self.planes_from(fb, q);
            assert(a.subrange(0, a.len() as int) =~= a);
        }
    }
}

/// A cycle at depth `D` holds, for every plane `p`, `2^p` scans of 32 rows of
/// `1 + 64 * 3 + 4` words, and one final word that disables the output.
pub proof fn lemma_timeline_length(h: Hub75, fb: FrameBuffer)
    requires
        h.wf(),
    ensures
        h.timeline(fb).len() == scan_length(h.depth_spec() as nat) + 1,
{
    h.lemma_planes_len(fb, 0);
}

/// A cycle at depth `D` opens with exactly `2^(D-1)` full 32-row scans of the most
/// significant plane, and the word after them is the first of row 0 of plane `D - 2`.
pub proof fn lemma_top_plane_first(h: Hub75, fb: FrameBuffer)
    requires
        h.wf(),
    ensures
        ({
            let top = (h.depth_spec() - 1) as u8;
            let n = two_pow(top as nat) * (32 * 197);
            &&& h.timeline(fb).subrange(0, n as int) == h.repeated_scans(fb, top, two_pow(top as nat))
            &&& h.timeline(fb).subrange(n as int, n + 197int) == h.row_words(fb, (top - 1) as u8, 0)
        }),
{
    let d = h.depth_spec() as nat;
    let top = (d - 1) as u8;
    let next = (d - 2) as u8;
    let top_block = h.plane_block(fb, top);
    let next_block = h.plane_block(fb, next);
    let t = h.timeline(fb);
    let all = h.planes_from(fb, 0);
    h.lemma_repeated_len(fb, top, two_pow(top as nat));
    let n = top_block.len();
    // the two most significant blocks lead the cycle
    assert(h.planes_from(fb, d) =~= Seq::<u32>::empty());
    assert(h.planes_from(fb, (d - 1) as nat) =~= top_block);
    assert(h.planes_from(fb, (d - 2) as nat) == top_block + next_block);
    h.lemma_planes_prefix(fb, 0, (d - 2) as nat);
    // the next block opens with row 0 of its first scan
    lemma_two_pow_positive(next as nat);
    h.lemma_repeated_prefix(fb, next, 1, two_pow(next as nat));
    assert(h.repeated_scans(fb, next, 0) =~= Seq::<u32>::empty());
    assert(h.repeated_scans(fb, next, 1) =~= h.full_scan(fb, next));
    h.lemma_scan_rows_prefix(fb, next, 1, 32);
    assert(h.scan_rows(fb, next, 0) =~= Seq::<u32>::empty());
    assert(h.scan_rows(fb, next, 1) =~= h.row_words(fb, next, 0));
    h.lemma_repeated_len(fb, next, two_pow(next as nat));
    h.lemma_scan_rows_len(fb, next, 32);
    assert(two_pow(next as nat) >= 1) by {
        lemma_two_pow_positive(next as nat);
    }
    let lead = top_block + next_block;
    assert(all.subrange(0, lead.len() as int) == lead);
    assert forall|i: int| 0 <= i < lead.len() implies #[trigger] t[i] == lead[i] by {
        assert(all.subrange(0, lead.len() as int)[i] == all[i]);
    }
    assert(t.subrange(0, n as int) =~= top_block) by {
        assert forall|i: int| 0 <= i < n implies #[trigger] t[i] == top_block[i] by {
            assert(t[i] == lead[i]);
        }
    }
    let first_scan = h.full_scan(fb, next);
    let first_row = h.row_words(fb, next, 0);
    assert(next_block.subrange(0, first_scan.len() as int) == first_scan);
    assert(first_scan.subrange(0, first_row.len() as int) == first_row);
    assert(t.subrange(n as int, n + 197int) =~= first_row) by {
        assert forall|j: int| 0 <= j < 197 implies #[trigger] t[n + j] == first_row[j] by {
            assert(t[n + j] == lead[n + j]);
            assert(lead[n + j] == next_block[j]);
            assert(next_block.subrange(0, first_scan.len() as int)[j] == next_block[j]);
            assert(first_scan.subrange(0, first_row.len() as int)[j] == first_scan[j]);
        }
    }
}

proof fn lemma_two_pow_positive(p: nat)
    ensures
        two_pow(p) >= 1,
    decreases p,
{
    if p > 0 {
        lemma_two_pow_positive((p - 1) as nat);
    }
}

impl Hub75 {
    /// None of the six RGB data lines is high in `w`.
    pub open spec fn rgb_off(self, w: u32) -> bool {
        &&& !self.line(w, Role::R1)
        &&& !self.line(w, Role::G1)
        &&& !self.line(w, Role::B1)
        &&& !self.line(w, Role::R2)
        &&& !self.line(w, Role::G2)
        &&& !self.line(w, Role::B2)
    }

    /// Only the red lines of both triples are high in `w`.
    pub open spec fn only_red(self, w: u32) -> bool {
        &&& self.line(w, Role::R1)
        &&& !self.line(w, Role::G1)
        &&& !self.line(w, Role::B1)
        &&& self.line(w, Role::R2)
        &&& !self.line(w, Role::G2)
        &&& !self.line(w, Role::B2)
    }

    /// A line is high in `word(l)` exactly when `l` says so.
    proof fn lemma_word_lines(self, l: Lines)
        requires
            self.wf(),
        ensures
            forall|role: Role| #[trigger] self.line(self.word(l), role) == l.levels()[role.index()],
    {
        let ps = self.pins_spec().positions();
        assert forall|role: Role| #[trigger] self.line(self.word(l), role) == l.levels()[role.index()] by {
            lemma_bits_of_line(ps, l.levels(), role.index());
        }
    }
}

proof fn lemma_plane_bits_of_extremes(depth: u8, plane: u8)
    requires
        plane < depth <= 8,
    ensures
        !plane_bit(0, depth, plane),
        plane_bit(255, depth, plane),
{
    lemma_lightness_monotonic(0, 255);
    let k = (8 - depth + plane) as u8;
    assert((0u8 >> k) & 1u8 == 0u8) by (bit_vector);
    assert((255u8 >> k) & 1u8 == 1u8) by (bit_vector)
        requires
            k < 8,
    ;
}

/// An all-black 64 x 64 frame encodes to a cycle in which no RGB line is ever high, and in
/// which the output is disabled only in each row's latch and address window (steps
/// 192..196 of its 197) and at the final step of the cycle.
pub proof fn lemma_black_frame(h: Hub75, fb: FrameBuffer)
    requires
        h.wf(),
        fb.wf(),
        fb.width_spec() == 64,
        fb.height_spec() == 64,
        fb.is_filled_with(Color { r: 0, g: 0, b: 0 }),
    ensures
        ({
            let t = h.timeline(fb);
            &&& forall|i: int| 0 <= i < t.len() ==> h.rgb_off(#[trigger] t[i])
            &&& forall|i: int|
                0 <= i < t.len() - 1 ==> (h.line(#[trigger] t[i], Role::Oe) <==> 192 <= i % 197
                    < 196)
            &&& h.line(t[t.len() - 1], Role::Oe)
        }),
{
    let pred = |o: int, w: u32| h.rgb_off(w) && (h.line(w, Role::Oe) <==> 192 <= o < 196);
    assert forall|plane: u8, row: int, o: int|
        plane < h.depth_spec() && 0 <= row < 32 && 0 <= o < 197 implies #[trigger] pred(
        o,
        h.word(h.row_lines(fb, plane, row, o)),
    ) by {
        let col = if o < 192 {
            o / 3
        } else {
            63
        };
        assert(fb.pixels()[row * 64 + col] == Color { r: 0, g: 0, b: 0 });
        assert(fb.pixels()[(row + 32) * 64 + col] == Color { r: 0, g: 0, b: 0 });
        lemma_plane_bits_of_extremes(h.depth_spec(), plane);
        h.lemma_word_lines(h.row_lines(fb, plane, row, o));
    }
    h.lemma_rows_in_planes(fb, 0, pred);
    let t = h.timeline(fb);
    let all = h.planes_from(fb, 0);
    assert forall|i: int| 0 <= i < t.len() - 1 implies h.rgb_off(#[trigger] t[i]) && (h.line(
        t[i],
        Role::Oe,
    ) <==> 192 <= i % 197 < 196) by {
        assert(t[i] == all[i]);
        assert(pred(i % 197, all[i]));
    }
    assert(fb.pixels()[31int * 64 + 63] == Color { r: 0, g: 0, b: 0 });
    assert(fb.pixels()[63int * 64 + 63] == Color { r: 0, g: 0, b: 0 });
    lemma_plane_bits_of_extremes(h.depth_spec(), 0);
    h.lemma_word_lines(h.row_lines(fb, 0, 31, 195));
}

/// A 64 x 64 frame of pure red (255, 0, 0), with each line on its own channel, keeps the
/// red lines of both triples high and the green and blue lines low in every word of the
/// cycle, so through all `2^(D-1)` scans of the most significant plane, every row and
/// every column.
pub proof fn lemma_red_frame(h: Hub75, fb: FrameBuffer)
    requires
        h.wf(),
        h.channels_spec() == (ChannelMap {
            red_line: Channel::Red,
            green_line: Channel::Green,
            blue_line: Channel::Blue,
        }),
        fb.wf(),
        fb.width_spec() == 64,
        fb.height_spec() == 64,
        fb.is_filled_with(Color { r: 255, g: 0, b: 0 }),
    ensures
        forall|i: int|
            0 <= i < h.timeline(fb).len() ==> h.only_red(#[trigger] h.timeline(fb)[i]),
{
    let pred = |o: int, w: u32| h.only_red(w);
    assert forall|plane: u8, row: int, o: int|
        plane < h.depth_spec() && 0 <= row < 32 && 0 <= o < 197 implies #[trigger] pred(
        o,
        h.word(h.row_lines(fb, plane, row, o)),
    ) by {
        let col = if o < 192 {
            o / 3
        } else {
            63
        };
        assert(fb.pixels()[row * 64 + col] == Color { r: 255, g: 0, b: 0 });
        assert(fb.pixels()[(row + 32) * 64 + col] == Color { r: 255, g: 0, b: 0 });
        lemma_plane_bits_of_extremes(h.depth_spec(), plane);
        h.lemma_word_lines(h.row_lines(fb, plane, row, o));
    }
    h.lemma_rows_in_planes(fb, 0, pred);
    let t = h.timeline(fb);
    let all = h.planes_from(fb, 0);
    assert forall|i: int| 0 <= i < t.len() implies h.only_red(#[trigger] t[i]) by {
        if i < all.len() {
            assert(t[i] == all[i]);
            assert(pred(i % 197, all[i]));
        } else {
            assert(fb.pixels()[31int * 64 + 63] == Color { r: 255, g: 0, b: 0 });
            assert(fb.pixels()[63int * 64 + 63] == Color { r: 255, g: 0, b: 0 });
            lemma_plane_bits_of_extremes(h.depth_spec(), 0);
            h.lemma_word_lines(h.row_lines(fb, 0, 31, 195));
        }
    }
}

impl Hub75 {
    /// Rows `row` to 31 of one scan of plane `plane`.
    pub open spec fn scan_tail(self, fb: FrameBuffer, plane: u8, row: nat) -> Seq<u32>
        decreases 32 - row,
    {
        if row >= 32 {
            Seq::empty()
        } else {
            self.row_words(fb, plane, row as int) + self.scan_tail(fb, plane, row + 1)
        }
    }

    /// The blocks of planes `p - 1` down to 0.
    pub open spec fn lower_planes(self, fb: FrameBuffer, p: nat) -> Seq<u32>
        decreases p,
    {
        if p == 0 {
            Seq::empty()
        } else {
            self.plane_block(fb, (p - 1) as u8) + self.lower_planes(fb, (p - 1) as nat)
        }
    }

    /// What is left of the cycle when a direct refresh stands at row `row` of scan `rep`
    /// of plane `plane`, that row included.
    pub open spec fn remaining(self, fb: FrameBuffer, plane: u8, rep: nat, row: nat) -> Seq<u32> {
        self.scan_tail(fb, plane, row) + self.repeated_scans(
            fb,
            plane,
            (two_pow(plane as nat) - rep - 1) as nat,
        ) + self.lower_planes(fb, plane as nat)
    }

    proof fn lemma_scan_split(self, fb: FrameBuffer, plane: u8, n: nat)
        requires
            n <= 32,
        ensures
            self.scan_rows(fb, plane, n) + self.scan_tail(fb, plane, n) == self.scan_tail(fb, plane, 0),
        decreases n,
    {
        if n > 0 {
            self.lemma_scan_split(fb, plane, (n - 1) as nat);
            let a = self.scan_rows(fb, plane, (n - 1) as nat);
            let r = self.row_words(fb, plane, n - 1);
            let t = self.scan_tail(fb, plane, n);
            assert(self.scan_tail(fb, plane, (n - 1) as nat) == r + t);
            assert((a + r) + t =~= a + (r + t));
        } else {
            assert(self.scan_rows(fb, plane, 0) + self.scan_tail(fb, plane, 0) =~= self.scan_tail(
                fb,
                plane,
                0,
            ));
        }
    }

    proof fn lemma_repeats_front(self, fb: FrameBuffer, plane: u8, n: nat)
        ensures
            self.repeated_scans(fb, plane, n + 1) == self.full_scan(fb, plane)
                + self.repeated_scans(fb, plane, n),
        decreases n,
    {
        let f = self.full_scan(fb, plane);
        if n > 0 {
            self.lemma_repeats_front(fb, plane, (n - 1) as nat);
            let m = self.repeated_scans(fb, plane, (n - 1) as nat);
            assert((f + m) + f =~= f + (m + f));
        } else {
            assert(self.repeated_scans(fb, plane, 0) =~= Seq::<u32>::empty());
            assert(Seq::<u32>::empty() + f =~= f + Seq::<u32>::empty());
        }
    }

    proof fn lemma_planes_split(self, fb: FrameBuffer, p: nat)
        requires
            p <= self.depth_spec(),
        ensures
            self.planes_from(fb, p) + self.lower_planes(fb, p) == self.lower_planes(
                fb,
                self.depth_spec() as nat,
            ),
        decreases self.depth_spec() - p,
    {
        if p < self.depth_spec() {
            self.lemma_planes_split(fb, p + 1);
            let a = self.planes_from(fb, p + 1);
            let b = self.plane_block(fb, p as u8);
            let c = self.lower_planes(fb, p);
            assert(self.planes_from(fb, p) == a + b);
            assert(self.lower_planes(fb, p + 1) == b + c);
            assert((a + b) + c =~= a + (b + c));
        } else {
            assert(self.planes_from(fb, p) =~= Seq::<u32>::empty());
            assert(Seq::<u32>::empty() + self.lower_planes(fb, p) =~= self.lower_planes(fb, p));
        }
    }
}

/// A direct refresh starting at row 0 of the first scan of the most significant plane has
/// the whole cycle ahead of it, the same words as the unrolled timeline without its final
/// step.
pub proof fn lemma_direct_cycle_start(h: Hub75, fb: FrameBuffer)
    requires
        h.wf(),
    ensures
        h.remaining(fb, (h.depth_spec() - 1) as u8, 0, 0) == h.planes_from(fb, 0),
        h.planes_from(fb, 0).push(h.final_word(fb)) == h.timeline(fb),
{
    let d = h.depth_spec() as nat;
    let top = (d - 1) as u8;
    h.lemma_planes_split(fb, 0);
    assert(h.lower_planes(fb, 0) =~= Seq::<u32>::empty());
    assert(h.planes_from(fb, 0) + h.lower_planes(fb, 0) =~= h.planes_from(fb, 0));
    lemma_two_pow_positive(top as nat);
    h.lemma_scan_split(fb, top, 32);
    assert(h.scan_tail(fb, top, 32) =~= Seq::<u32>::empty());
    assert(h.full_scan(fb, top) + Seq::<u32>::empty() =~= h.full_scan(fb, top));
    h.lemma_repeats_front(fb, top, (two_pow(top as nat) - 1) as nat);
    let f = h.full_scan(fb, top);
    let m = h.repeated_scans(fb, top, (two_pow(top as nat) - 1) as nat);
    let l = h.lower_planes(fb, top as nat);
    assert(h.lower_planes(fb, d) == h.plane_block(fb, top) + l);
    assert((f + m) + l =~= f + m + l);
}

/// Each step of a direct refresh shows the row at the front of what is left of the cycle,
/// and the cursor then moves to the rest: so the direct refresh shows the rows of the
/// timeline, in its order, and starts over after the last row of plane 0.
pub proof fn lemma_direct_step(h: Hub75, fb: FrameBuffer, plane: u8, rep: nat, row: nat)
    requires
        h.wf(),
        plane < h.depth_spec(),
        rep < two_pow(plane as nat),
        row < 32,
    ensures
        ({
            let (p2, rep2, row2) = next_cursor(h.depth_spec(), plane, rep, row);
            let last = plane == 0 && rep + 1 == two_pow(plane as nat) && row == 31;
            &&& last ==> h.remaining(fb, plane, rep, row) == h.row_words(fb, plane, row as int)
            &&& !last ==> h.remaining(fb, plane, rep, row) == h.row_words(fb, plane, row as int)
                + h.remaining(fb, p2, rep2, row2)
            &&& p2 < h.depth_spec()
            &&& rep2 < two_pow(p2 as nat)
            &&& row2 < 32
        }),
{
    let r = h.row_words(fb, plane, row as int);
    let w = two_pow(plane as nat);
    let left = (w - rep - 1) as nat;
    let reps = h.repeated_scans(fb, plane, left);
    let low = h.lower_planes(fb, plane as nat);
    let tail = h.scan_tail(fb, plane, row + 1);
    assert(h.scan_tail(fb, plane, row) == r + tail);
    h.lemma_scan_split(fb, plane, 32);
    assert(h.scan_tail(fb, plane, 32) =~= Seq::<u32>::empty());
    assert(h.full_scan(fb, plane) + Seq::<u32>::empty() =~= h.full_scan(fb, plane));
    lemma_two_pow_positive(plane as nat);
    if row + 1 < 32 {
        assert((r + tail) + reps + low =~= r + (tail + reps + low));
    } else {
        assert(tail =~= Seq::<u32>::empty());
        if rep + 1 < w {
            h.lemma_repeats_front(fb, plane, (left - 1) as nat);
            let f = h.full_scan(fb, plane);
            let m = h.repeated_scans(fb, plane, (left - 1) as nat);
            assert((r + tail) + (f + m) + low =~= r + (f + m + low));
        } else if plane > 0 {
            let q = (plane - 1) as u8;
            lemma_two_pow_positive(q as nat);
            assert(reps =~= Seq::<u32>::empty());
            h.lemma_scan_split(fb, q, 32);
            assert(h.scan_tail(fb, q, 32) =~= Seq::<u32>::empty());
            assert(h.full_scan(fb, q) + Seq::<u32>::empty() =~= h.full_scan(fb, q));
            h.lemma_repeats_front(fb, q, (two_pow(q as nat) - 1) as nat);
            let f = h.full_scan(fb, q);
            let m = h.repeated_scans(fb, q, (two_pow(q as nat) - 1) as nat);
            let l = h.lower_planes(fb, q as nat);
            assert(low == h.plane_block(fb, q) + l);
            assert((r + tail) + reps + low =~= r + (f + m + l));
        } else {
            assert(reps =~= Seq::<u32>::empty());
            assert(low =~= Seq::<u32>::empty());
            assert((r + tail) + reps + low =~= r);
            lemma_two_pow_positive((h.depth_spec() - 1) as nat);
        }
    }
}

} // verus!
