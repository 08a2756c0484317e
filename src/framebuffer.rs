use vstd::prelude::*;

use crate::color::{gamma, gamma_correct};

verus! {

/// One pixel: three independent 8-bit channels.
#[derive(Copy, Clone, Debug, PartialEq, Eq, Structural)]
pub struct Color {
    pub r: u8,
    pub g: u8,
    pub b: u8,
}

impl Color {
    pub fn black() -> (c: Color)
        ensures
            c == (Color { r: 0, g: 0, b: 0 }),
    {
        Color { r: 0, g: 0, b: 0 }
    }

    pub fn red() -> (c: Color)
        ensures
            c == (Color { r: 255, g: 0, b: 0 }),
    {
        Color { r: 255, g: 0, b: 0 }
    }

    pub fn green() -> (c: Color)
        ensures
            c == (Color { r: 0, g: 255, b: 0 }),
    {
        Color { r: 0, g: 255, b: 0 }
    }

    pub fn blue() -> (c: Color)
        ensures
            c == (Color { r: 0, g: 0, b: 255 }),
    {
        Color { r: 0, g: 0, b: 255 }
    }

    pub fn white() -> (c: Color)
        ensures
            c == (Color { r: 255, g: 255, b: 255 }),
    {
        Color { r: 255, g: 255, b: 255 }
    }
}

/// A grid of pixels, stored row after row.
pub struct FrameBuffer {
    data: Vec<Color>,
    width: usize,
    height: usize,
}

impl FrameBuffer {
    /// The pixels, row after row.
    pub closed spec fn pixels(self) -> Seq<Color> {
        self.data@
    }

    pub closed spec fn width_spec(self) -> usize {
        self.width
    }

    pub closed spec fn height_spec(self) -> usize {
        self.height
    }

    pub open spec fn wf(self) -> bool {
        self.pixels().len() == self.width_spec() * self.height_spec()
    }

    /// The pixel at column `x` of row `y`; black outside the grid.
    pub open spec fn pixel(self, x: int, y: int) -> Color {
        if 0 <= x < self.width_spec() && 0 <= y < self.height_spec() {
            self.pixels()[y * self.width_spec() + x]
        } else {
            Color { r: 0, g: 0, b: 0 }
        }
    }

    /// Every pixel of the grid is `c`.
    pub open spec fn is_filled_with(self, c: Color) -> bool {
        forall|i: int| 0 <= i < self.pixels().len() ==> #[trigger] self.pixels()[i] == c
    }

    /// A `width` x `height` grid of black pixels.
    pub fn new(width: usize, height: usize) -> (r: Self)
        requires
            width * height <= usize::MAX,
        ensures
            r.wf(),
            r.width_spec() == width,
            r.height_spec() == height,
            r.is_filled_with(Color { r: 0, g: 0, b: 0 }),
    {
        let n: usize = width * height;
        let mut data: Vec<Color> = Vec::new();
        let mut i: usize = 0;
        while i < n
            invariant
                i <= n,
                data@.len() == i,
                forall|k: int| 0 <= k < i ==> #[trigger] data@[k] == (Color { r: 0, g: 0, b: 0 }),
            decreases n - i,
        {
            data.push(Color { r: 0, g: 0, b: 0 });
            i = i + 1;
        }
        FrameBuffer { data, width, height }
    }

    pub fn width(&self) -> (r: usize)
        ensures
            r == self.width_spec(),
    {
        self.width
    }

    pub fn height(&self) -> (r: usize)
        ensures
            r == self.height_spec(),
    {
        self.height
    }

    /// Paints every pixel with `color`.
    pub fn fill(&mut self, color: Color)
        requires
            old(self).wf(),
        ensures
            final(self).wf(),
            final(self).width_spec() == old(self).width_spec(),
            final(self).height_spec() == old(self).height_spec(),
            final(self).is_filled_with(color),
    {
        let n = self.data.len();
        let mut i: usize = 0;
        while i < n
            invariant
                i <= n,
                n == self.data@.len(),
                self.width == old(self).width,
                self.height == old(self).height,
                self.data@.len() == old(self).data@.len(),
                forall|k: int| 0 <= k < i ==> #[trigger] self.data@[k] == color,
            decreases n - i,
        {
            self.data.set(i, color);
            i = i + 1;
        }
    }

    /// Paints the pixel at column `x` of row `y`; a position outside the grid is ignored.
    pub fn set_pixel(&mut self, x: usize, y: usize, color: Color)
        requires
            old(self).wf(),
        ensures
            final(self).wf(),
            final(self).width_spec() == old(self).width_spec(),
            final(self).height_spec() == old(self).height_spec(),
            x < old(self).width_spec() && y < old(self).height_spec() ==> final(self).pixel(
                x as int,
                y as int,
            ) == color,
            forall|i: int, j: int|
                !(i == x && j == y) ==> #[trigger] final(self).pixel(i, j) == old(self).pixel(i, j),
    {
        if x < self.width && y < self.height {
            let idx = self.index(x, y);
            self.data.set(idx, color);
            assert forall|i: int, j: int| !(i == x && j == y) implies #[trigger] self.pixel(i, j)
                == old(self).pixel(i, j) by {
                if 0 <= i < self.width && 0 <= j < self.height {
                    lemma_index_in_grid(i, j, self.width as int, self.height as int);
                    lemma_index_unique(i, j, x as int, y as int, self.width as int);
                }
            }
        }
    }

    /// Where the pixel at column `x` of row `y` is stored.
    fn index(&self, x: usize, y: usize) -> (r: usize)
        requires
            self.wf(),
            x < self.width_spec(),
            y < self.height_spec(),
        ensures
            r == y * self.width_spec() + x,
            r < self.pixels().len(),
    {
        let len = self.data.len();
        proof {
            lemma_index_in_grid(x as int, y as int, self.width as int, self.height as int);
        }
        y * self.width + x
    }

    /// The pixel at column `x` of row `y`; black outside the grid.
    pub fn get_pixel(&self, x: usize, y: usize) -> (r: Color)
        requires
            self.wf(),
        ensures
            r == self.pixel(x as int, y as int),
    {
        if x < self.width && y < self.height {
            self.data[self.index(x, y)]
        } else {
            Color::black()
        }
    }

    /// Takes raw RGB bytes, three per pixel, row after row, and puts each channel on the gamma
    /// curve. `None` when `bytes` does not hold exactly `width * height` pixels.
    pub fn from_rgb8(width: usize, height: usize, bytes: &Vec<u8>) -> (r: Option<FrameBuffer>)
        ensures
            r is Some <==> width * height * 3 == bytes@.len(),
            r matches Some(fb) ==> {
                &&& fb.wf()
                &&& fb.width_spec() == width
                &&& fb.height_spec() == height
                &&& forall|i: int|
                    0 <= i < width * height ==> #[trigger] fb.pixels()[i] == (Color {
                        r: gamma(bytes@[3 * i]),
                        g: gamma(bytes@[3 * i + 1]),
                        b: gamma(bytes@[3 * i + 2]),
                    })
            },
    {
        let len = bytes.len();
        let n = match width.checked_mul(height) {
            Some(n) => n,
            None => {
                assert(width * height * 3 > bytes@.len()) by (nonlinear_arith)
                    requires
                        width * height > usize::MAX,
                        bytes@.len() <= usize::MAX,
                ;
                return None;
            },
        };
        if n > bytes.len() / 3 || n * 3 != bytes.len() {
            return None;
        }
        let mut data: Vec<Color> = Vec::new();
        let mut i: usize = 0;
        while i < n
            invariant
                i <= n,
                n == width * height,
                n * 3 == bytes@.len(),
                bytes@.len() == len,
                data@.len() == i,
                forall|k: int|
                    0 <= k < i ==> #[trigger] data@[k] == (Color {
                        r: gamma(bytes@[3 * k]),
                        g: gamma(bytes@[3 * k + 1]),
                        b: gamma(bytes@[3 * k + 2]),
                    }),
            decreases n - i,
        {
            let c = Color {
                r: gamma_correct(bytes[3 * i]),
                g: gamma_correct(bytes[3 * i + 1]),
                b: gamma_correct(bytes[3 * i + 2]),
            };
            data.push(c);
            i = i + 1;
        }
        Some(FrameBuffer { data, width, height })
    }
}

/// Column `x` of row `y` is a valid index of a `w` x `h` grid stored row after row.
proof fn lemma_index_in_grid(x: int, y: int, w: int, h: int)
    requires
        0 <= x < w,
        0 <= y < h,
    ensures
        0 <= y * w + x < w * h,
{
    assert(0 <= y * w + x < w * h) by (nonlinear_arith)
        requires
            0 <= x < w,
            0 <= y < h,
    ;
}

/// Distinct positions of a grid of width `w` have distinct indices.
proof fn lemma_index_unique(x1: int, y1: int, x2: int, y2: int, w: int)
    requires
        0 <= x1 < w,
        0 <= x2 < w,
        0 <= y1,
        0 <= y2,
        !(x1 == x2 && y1 == y2),
    ensures
        y1 * w + x1 != y2 * w + x2,
{
    if y1 == y2 {
    } else if y1 < y2 {
        assert(y1 * w + x1 < y2 * w + x2) by (nonlinear_arith)
            requires
                0 <= x1 < w,
                0 <= x2,
                y1 < y2,
        ;
    } else {
        assert(y2 * w + x2 < y1 * w + x1) by (nonlinear_arith)
            requires
                0 <= x2 < w,
                0 <= x1,
                y2 < y1,
        ;
    }
}

} // verus!
