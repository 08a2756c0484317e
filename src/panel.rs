use vstd::prelude::*;

use crate::framebuffer::{Color, FrameBuffer};
use crate::hub75::{plane_weight, two_pow, DimensionError, Hub75, MATRIX_HEIGHT, MATRIX_WIDTH};

verus! {

/// Why a panel operation was refused.
#[derive(Clone, Copy, Debug, PartialEq, Eq, Structural)]
pub enum PanelError {
    /// `begin` has not been called on the panel.
    NotInitialized,
}

/// Where a direct refresh stands in its cycle: plane, scan within the plane's weight, row.
pub open spec fn next_cursor(depth: u8, plane: u8, repeat: nat, row: nat) -> (u8, nat, nat) {
    if row + 1 < 32 {
        (plane, repeat, row + 1)
    } else if repeat + 1 < two_pow(plane as nat) {
        (plane, repeat + 1, 0)
    } else if plane > 0 {
        ((plane - 1) as u8, 0, 0)
    } else {
        ((depth - 1) as u8, 0, 0)
    }
}

/// A 64 x 64 HUB75 panel: the frame buffer that content is written to, the encoder of the
/// panel, and the cursor of a refresh that encodes one row at a time.
pub struct MatrixPanel {
    hub75: Hub75,
    framebuffer: FrameBuffer,
    refresh_running: bool,
    initialized: bool,
    plane: u8,
    repeat: usize,
    row: usize,
}

impl MatrixPanel {
    pub closed spec fn hub75_spec(self) -> Hub75 {
        self.hub75
    }

    pub closed spec fn frame(self) -> FrameBuffer {
        self.framebuffer
    }

    pub closed spec fn running(self) -> bool {
        self.refresh_running
    }

    pub closed spec fn initialized_spec(self) -> bool {
        self.initialized
    }

    /// The plane, scan and row that the next direct refresh step shows.
    pub closed spec fn cursor(self) -> (u8, nat, nat) {
        (self.plane, self.repeat as nat, self.row as nat)
    }

    pub open spec fn wf(self) -> bool {
        &&& self.hub75_spec().wf()
        &&& self.frame().wf()
        &&& self.frame().width_spec() == 64
        &&& self.frame().height_spec() == 64
        &&& self.cursor().0 < self.hub75_spec().depth_spec()
        &&& self.cursor().1 < two_pow(self.cursor().0 as nat)
        &&& self.cursor().2 < 32
    }

    /// A blank panel, not started, whose refresh starts at row 0 of the most significant
    /// plane.
    pub fn new(hub75: Hub75) -> (r: MatrixPanel)
        requires
            hub75.wf(),
        ensures
            r.wf(),
            r.hub75_spec() == hub75,
            r.frame().is_filled_with(Color { r: 0, g: 0, b: 0 }),
            !r.running(),
            !r.initialized_spec(),
            r.cursor() == ((hub75.depth_spec() - 1) as u8, 0nat, 0nat),
    {
        let plane = hub75.depth() - 1;
        let fb = FrameBuffer::new(MATRIX_WIDTH, MATRIX_HEIGHT);
        let r = MatrixPanel {
            hub75,
            framebuffer: fb,
            refresh_running: false,
            initialized: false,
            plane,
            repeat: 0,
            row: 0,
        };
        proof {
            lemma_weight_positive(plane);
        }
        r
    }

    /// Marks the panel started and its refresh running. A panel already started is left as
    /// it is.
    pub fn begin(&mut self) -> (r: bool)
        requires
            old(self).wf(),
        ensures
            r,
            final(self).wf(),
            final(self).initialized_spec(),
            final(self).running() == (old(self).running() || !old(self).initialized_spec()),
            final(self).frame() == old(self).frame(),
            final(self).hub75_spec() == old(self).hub75_spec(),
            final(self).cursor() == old(self).cursor(),
    {
        if self.initialized {
            return true;
        }
        self.initialized = true;
        self.refresh_running = true;
        true
    }

    /// Tells the refresh to stop.
    pub fn stop(&mut self)
        requires
            old(self).wf(),
        ensures
            final(self).wf(),
            !final(self).running(),
            final(self).initialized_spec() == old(self).initialized_spec(),
            final(self).frame() == old(self).frame(),
            final(self).hub75_spec() == old(self).hub75_spec(),
            final(self).cursor() == old(self).cursor(),
    {
        self.refresh_running = false;
    }

    pub fn is_running(&self) -> (r: bool)
        ensures
            r == self.running(),
    {
        self.refresh_running
    }

    pub fn is_initialized(&self) -> (r: bool)
        ensures
            r == self.initialized_spec(),
    {
        self.initialized
    }

    pub fn hub75(&self) -> (r: &Hub75)
        ensures
            *r == self.hub75_spec(),
    {
        &self.hub75
    }

    /// The frame as it stands: a complete, consistent view for the encoder.
    pub fn snapshot(&self) -> (r: &FrameBuffer)
        ensures
            *r == self.frame(),
    {
        &self.framebuffer
    }

    /// Paints the whole frame with `color`.
    pub fn fill_screen(&mut self, color: Color)
        requires
            old(self).wf(),
        ensures
            final(self).wf(),
            final(self).frame().is_filled_with(color),
            final(self).running() == old(self).running(),
            final(self).initialized_spec() == old(self).initialized_spec(),
            final(self).hub75_spec() == old(self).hub75_spec(),
            final(self).cursor() == old(self).cursor(),
    {
        self.framebuffer.fill(color);
    }

    /// Paints one pixel; a position outside the panel is ignored.
    pub fn set_pixel(&mut self, x: usize, y: usize, color: Color)
        requires
            old(self).wf(),
        ensures
            final(self).wf(),
            x < 64 && y < 64 ==> final(self).frame().pixel(x as int, y as int) == color,
            forall|i: int, j: int|
                !(i == x && j == y) ==> #[trigger] final(self).frame().pixel(i, j) == old(
                    self,
                ).frame().pixel(i, j),
            final(self).running() == old(self).running(),
            final(self).initialized_spec() == old(self).initialized_spec(),
            final(self).hub75_spec() == old(self).hub75_spec(),
            final(self).cursor() == old(self).cursor(),
    {
        self.framebuffer.set_pixel(x, y, color);
    }

    /// Replaces the whole frame at once. A frame of other dimensions than 64 x 64 is
    /// refused and the panel keeps its frame.
    pub fn replace(&mut self, frame: FrameBuffer) -> (r: Result<(), DimensionError>)
        requires
            old(self).wf(),
            frame.wf(),
        ensures
            final(self).wf(),
            r is Ok <==> frame.width_spec() == 64 && frame.height_spec() == 64,
            r is Ok ==> final(self).frame() == frame,
            r matches Err(e) ==> {
                &&& e == (DimensionError {
                    width: frame.width_spec(),
                    height: frame.height_spec(),
                })
                &&& final(self).frame() == old(self).frame()
            },
            final(self).running() == old(self).running(),
            final(self).initialized_spec() == old(self).initialized_spec(),
            final(self).hub75_spec() == old(self).hub75_spec(),
            final(self).cursor() == old(self).cursor(),
    {
        if frame.width() != MATRIX_WIDTH || frame.height() != MATRIX_HEIGHT {
            return Err(DimensionError { width: frame.width(), height: frame.height() });
        }
        self.framebuffer = frame;
        Ok(())
    }

    /// The whole refresh cycle of the current frame, unrolled into bus words.
    pub fn render(&self) -> (r: Vec<u32>)
        requires
            self.wf(),
        ensures
            r@ == self.hub75_spec().timeline(self.frame()),
    {
        match self.hub75.render_unoptimized(&self.framebuffer) {
            Ok(words) => words,
            Err(_) => Vec::new(),
        }
    }

    /// One step of the direct refresh: while running, the bus words of the row under the
    /// cursor, encoded from the frame as it stands now, and the cursor moves on; `None` once
    /// the refresh has been stopped.
    pub fn refresh_row(&mut self) -> (r: Option<Vec<u32>>)
        requires
            old(self).wf(),
        ensures
            final(self).wf(),
            final(self).frame() == old(self).frame(),
            final(self).running() == old(self).running(),
            final(self).initialized_spec() == old(self).initialized_spec(),
            final(self).hub75_spec() == old(self).hub75_spec(),
            r is Some <==> old(self).running(),
            r matches Some(words) ==> words@ == old(self).hub75_spec().row_words(
                old(self).frame(),
                old(self).cursor().0,
                old(self).cursor().2 as int,
            ),
            old(self).running() ==> final(self).cursor() == next_cursor(
                old(self).hub75_spec().depth_spec(),
                old(self).cursor().0,
                old(self).cursor().1,
                old(self).cursor().2,
            ),
            !old(self).running() ==> final(self).cursor() == old(self).cursor(),
    {
        if !self.refresh_running {
            return None;
        }
        let words = self.hub75.row_program(&self.framebuffer, self.plane, self.row);
        let weight = plane_weight(self.plane);
        if self.row + 1 < 32 {
            self.row = self.row + 1;
        } else if self.repeat + 1 < weight {
            self.repeat = self.repeat + 1;
            self.row = 0;
        } else if self.plane > 0 {
            self.plane = self.plane - 1;
            self.repeat = 0;
            self.row = 0;
            proof {
                lemma_weight_positive(self.plane);
            }
        } else {
            self.plane = self.hub75.depth() - 1;
            self.repeat = 0;
            self.row = 0;
            proof {
                lemma_weight_positive(self.plane);
            }
        }
        Some(words)
    }
}

proof fn lemma_weight_positive(plane: u8)
    ensures
        two_pow(plane as nat) >= 1,
    decreases plane,
{
    if plane > 0 {
        lemma_weight_positive((plane - 1) as u8);
    }
}

/// The colour of column `x` in the test pattern: red, green and blue vertical stripes.
pub open spec fn stripe_color(x: int) -> Color {
    if x < 21 {
        Color { r: 255, g: 0, b: 0 }
    } else if x < 42 {
        Color { r: 0, g: 255, b: 0 }
    } else {
        Color { r: 0, g: 0, b: 255 }
    }
}

/// A panel for `hub75`, started.
pub fn initialize_panel(hub75: Hub75) -> (r: MatrixPanel)
    requires
        hub75.wf(),
    ensures
        r.wf(),
        r.hub75_spec() == hub75,
        r.initialized_spec(),
        r.running(),
        r.frame().is_filled_with(Color { r: 0, g: 0, b: 0 }),
{
    let mut panel = MatrixPanel::new(hub75);
    panel.begin();
    panel
}

/// Blanks a started panel.
pub fn display_blank_screen(panel: &mut MatrixPanel) -> (r: Result<(), PanelError>)
    requires
        old(panel).wf(),
    ensures
        final(panel).wf(),
        r is Ok <==> old(panel).initialized_spec(),
        r is Ok ==> final(panel).frame().is_filled_with(Color { r: 0, g: 0, b: 0 }),
        r is Err ==> *final(panel) == *old(panel),
        r matches Err(e) ==> e == PanelError::NotInitialized,
{
    if !panel.is_initialized() {
        return Err(PanelError::NotInitialized);
    }
    panel.fill_screen(Color::black());
    Ok(())
}

/// Fills a started panel with the colour `(r, g, b)`.
pub fn display_color_screen(panel: &mut MatrixPanel, r: u8, g: u8, b: u8) -> (res: Result<
    (),
    PanelError,
>)
    requires
        old(panel).wf(),
    ensures
        final(panel).wf(),
        res is Ok <==> old(panel).initialized_spec(),
        res is Ok ==> final(panel).frame().is_filled_with(Color { r, g, b }),
        res is Err ==> *final(panel) == *old(panel),
        res matches Err(e) ==> e == PanelError::NotInitialized,
{
    if !panel.is_initialized() {
        return Err(PanelError::NotInitialized);
    }
    panel.fill_screen(Color { r, g, b });
    Ok(())
}

/// Paints red, green and blue vertical stripes, each a third of the width, on a started
/// panel.
pub fn display_test_pattern(panel: &mut MatrixPanel) -> (r: Result<(), PanelError>)
    requires
        old(panel).wf(),
    ensures
        final(panel).wf(),
        r is Ok <==> old(panel).initialized_spec(),
        r is Ok ==> forall|x: int, y: int|
            0 <= x < 64 && 0 <= y < 64 ==> #[trigger] final(panel).frame().pixel(x, y)
                == stripe_color(x),
        r is Err ==> *final(panel) == *old(panel),
        r matches Err(e) ==> e == PanelError::NotInitialized,
{
    if !panel.is_initialized() {
        return Err(PanelError::NotInitialized);
    }
    let mut x: usize = 0;
    while x < MATRIX_WIDTH
        invariant
            panel.wf(),
            x <= 64,
            panel.initialized_spec() == old(panel).initialized_spec(),
            forall|i: int, j: int|
                0 <= i < x && 0 <= j < 64 ==> #[trigger] panel.frame().pixel(i, j) == stripe_color(
                    i,
                ),
        decreases 64 - x,
    {
        let mut y: usize = 0;
        while y < MATRIX_HEIGHT
            invariant
                panel.wf(),
                x < 64,
                y <= 64,
                panel.initialized_spec() == old(panel).initialized_spec(),
                forall|i: int, j: int|
                    0 <= i < x && 0 <= j < 64 ==> #[trigger] panel.frame().pixel(i, j)
                        == stripe_color(i),
                forall|j: int| 0 <= j < y ==> #[trigger] panel.frame().pixel(x as int, j)
                    == stripe_color(x as int),
            decreases 64 - y,
        {
            let color = if x < MATRIX_WIDTH / 3 {
                Color::red()
            } else if x < 2 * MATRIX_WIDTH / 3 {
                Color::green()
            } else {
                Color::blue()
            };
            panel.set_pixel(x, y, color);
            y = y + 1;
        }
        x = x + 1;
    }
    Ok(())
}

} // verus!
