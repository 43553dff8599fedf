//! The 320×170 framebuffer that a scene is rendered into, one RGB565 storage
//! value per pixel, row by row.

use vstd::prelude::*;

verus! {

/// Width of the screen in pixels.
pub const WIDTH: i32 = 320;

/// Height of the screen in pixels.
pub const HEIGHT: i32 = 170;

/// Number of pixels on the screen.
pub const PIXELS: usize = 54400;

/// Whether `(x, y)` lies on the screen.
pub open spec fn on_screen(x: int, y: int) -> bool {
    0 <= x < WIDTH && 0 <= y < HEIGHT
}

/// Position of the pixel `(x, y)` in the row-major pixel sequence.
pub open spec fn pixel_index(x: int, y: int) -> int {
    y * WIDTH + x
}

/// The pixels after writing `color` at `(x, y)`: a point off the screen
/// leaves them unchanged.
pub open spec fn plot(pixels: Seq<u16>, x: int, y: int, color: u16) -> Seq<u16> {
    if on_screen(x, y) {
        pixels.update(pixel_index(x, y), color)
    } else {
        pixels
    }
}

/// The pixels after writing each of `points` in order, later points over
/// earlier ones.
pub open spec fn plot_all(pixels: Seq<u16>, points: Seq<(i32, i32, u16)>) -> Seq<u16>
    decreases points.len(),
{
    if points.len() == 0 {
        pixels
    } else {
        let last = points.last();
        plot(plot_all(pixels, points.drop_last()), last.0 as int, last.1 as int, last.2)
    }
}

/// An off-screen-safe raster of RGB565 storage values.
pub struct Framebuffer {
    pixels: Vec<u16>,
}

impl View for Framebuffer {
    type V = Seq<u16>;

    closed spec fn view(&self) -> Seq<u16> {
        self.pixels@
    }
}

impl Framebuffer {
    /// The raster holds exactly one value per screen pixel.
    pub open spec fn wf(&self) -> bool {
        self@.len() == PIXELS
    }

    /// A black screen.
    pub fn new() -> (fb: Framebuffer)
        ensures
            fb.wf(),
            forall|i: int| 0 <= i < PIXELS ==> fb@[i] == 0,
    {
        let mut pixels: Vec<u16> = Vec::new();
        while pixels.len() < PIXELS
            invariant
                pixels.len() <= PIXELS,
                forall|i: int| 0 <= i < pixels.len() ==> pixels@[i] == 0,
            decreases PIXELS - pixels.len(),
        {
            pixels.push(0);
        }
        Framebuffer { pixels }
    }

    /// Width and height of the screen.
    pub fn size(&self) -> (wh: (u32, u32))
        ensures
            wh == (WIDTH as u32, HEIGHT as u32),
    {
        (320, 170)
    }

    /// The stored pixel values, row by row.
    pub fn pixels(&self) -> (s: &[u16])
        ensures
            s@ == self@,
    {
        self.pixels.as_slice()
    }

    /// The value stored at position `idx` of the raster.
    pub(crate) fn at(&self, idx: usize) -> (c: u16)
        requires
            idx < self@.len(),
        ensures
            c == self@[idx as int],
    {
        self.pixels[idx]
    }

    /// Stores `color` at position `idx` of the raster.
    pub(crate) fn put(&mut self, idx: usize, color: u16)
        requires
            idx < old(self)@.len(),
        ensures
            final(self)@ == old(self)@.update(idx as int, color),
    {
        self.pixels.set(idx, color);
    }

    /// Writes `color` at `(x, y)` if that point is on the screen; a point off
    /// the screen is ignored.
    pub fn set(&mut self, x: i32, y: i32, color: u16)
        requires
            old(self).wf(),
        ensures
            final(self)@ == plot(old(self)@, x as int, y as int, color),
    {
        if x >= 0 && x < WIDTH && y >= 0 && y < HEIGHT {
            self.pixels.set((y * WIDTH + x) as usize, color);
        }
    }

    /// Writes each point in turn, clipping those off the screen.
    pub fn draw_pixels(&mut self, points: &[(i32, i32, u16)])
        requires
            old(self).wf(),
        ensures
            final(self)@ == plot_all(old(self)@, points@),
            final(self).wf(),
    {
        let mut k: usize = 0;
        while k < points.len()
            invariant
                k <= points@.len(),
                self@ == plot_all(old(self)@, points@.subrange(0, k as int)),
                self.wf(),
            decreases points@.len() - k,
        {
            let (x, y, c) = points[k];
            self.set(x, y, c);
            proof {
                assert(points@.subrange(0, k + 1).drop_last() =~= points@.subrange(0, k as int));
            }
            k = k + 1;
        }
        assert(points@.subrange(0, points@.len() as int) =~= points@);
    }

    /// Paints every pixel with `color`.
    pub fn fill(&mut self, color: u16)
        requires
            old(self).wf(),
        ensures
            final(self).wf(),
            forall|i: int| 0 <= i < PIXELS ==> final(self)@[i] == color,
    {
        let mut i: usize = 0;
        while i < PIXELS
            invariant
                self.wf(),
                i <= PIXELS,
                forall|j: int| 0 <= j < i ==> self@[j] == color,
            decreases PIXELS - i,
        {
            self.pixels.set(i, color);
            i = i + 1;
        }
    }
}

} // verus!
