//! Drawing to a framebuffer.
use vstd::prelude::*;

verus! {

/// A color with 8 bits per channel.
#[derive(Copy, Clone, Debug, PartialEq, Eq, Structural)]
pub struct RgbColor {
    pub red: u8,
    pub green: u8,
    pub blue: u8,
}

impl RgbColor {
    /// Black: every channel off.
    pub fn black() -> (r: Self)
        ensures
            r == (RgbColor { red: 0, green: 0, blue: 0 }),
    {
        RgbColor { red: 0, green: 0, blue: 0 }
    }

    /// Pure red.
    pub fn red() -> (r: Self)
        ensures
            r == (RgbColor { red: 255, green: 0, blue: 0 }),
    {
        RgbColor { red: 255, green: 0, blue: 0 }
    }

    /// Pure green.
    pub fn green() -> (r: Self)
        ensures
            r == (RgbColor { red: 0, green: 255, blue: 0 }),
    {
        RgbColor { red: 0, green: 255, blue: 0 }
    }

    /// Pure blue.
    pub fn blue() -> (r: Self)
        ensures
            r == (RgbColor { red: 0, green: 0, blue: 255 }),
    {
        RgbColor { red: 0, green: 0, blue: 255 }
    }
}

/// A framebuffer that can be drawn to pixel by pixel.
///
/// Implementations name their size and the color of each pixel as spec
/// functions; setting a pixel changes that pixel alone.
pub trait Draw: Sized {
    /// The width in pixels.
    spec fn spec_width(&self) -> usize;

    /// The height in pixels.
    spec fn spec_height(&self) -> usize;

    /// The color of the pixel at (`x`, `y`).
    spec fn pixel(&self, x: usize, y: usize) -> RgbColor;

    /// Returns the width of the framebuffer in pixels.
    fn width(&self) -> (r: usize)
        ensures
            r == self.spec_width(),
    ;

    /// Returns the height of the framebuffer in pixels.
    fn height(&self) -> (r: usize)
        ensures
            r == self.spec_height(),
    ;

    /// Sets the pixel at (`x`, `y`) to `color`.
    fn set_pixel(&mut self, x: usize, y: usize, color: RgbColor) -> (r: &mut Self)
        ensures
            r.spec_width() == old(self).spec_width(),
            r.spec_height() == old(self).spec_height(),
            r.pixel(x, y) == color,
            forall|i: usize, j: usize|
                !(i == x && j == y) ==> #[trigger] r.pixel(i, j) == old(self).pixel(i, j),
            *final(self) == *final(r),
    ;

    /// Draws a horizontal line of length `len` at height `y`, one pixel at a
    /// time.
    fn line_horiz(&mut self, y: usize, len: usize, color: RgbColor) -> (r: &mut Self)
        ensures
            r.spec_width() == old(self).spec_width(),
            r.spec_height() == old(self).spec_height(),
            forall|i: usize, j: usize|
                #[trigger] r.pixel(i, j) == if j == y && i < len {
                    color
                } else {
                    old(self).pixel(i, j)
                },
            *final(self) == *final(r),
    {
        let mut x: usize = 0;
        while x < len
            invariant
                x <= len,
                self.spec_width() == old(self).spec_width(),
                self.spec_height() == old(self).spec_height(),
                forall|i: usize, j: usize|
                    #[trigger] self.pixel(i, j) == if j == y && i < x {
                        color
                    } else {
                        old(self).pixel(i, j)
                    },
            decreases len - x,
        {
            self.set_pixel(x, y, color);
            x = x + 1;
        }
        self
    }

    /// Draws a vertical line of length `len` at column `x`, one pixel at a
    /// time.
    fn line_vert(&mut self, x: usize, len: usize, color: RgbColor) -> (r: &mut Self)
        ensures
            r.spec_width() == old(self).spec_width(),
            r.spec_height() == old(self).spec_height(),
            forall|i: usize, j: usize|
                #[trigger] r.pixel(i, j) == if i == x && j < len {
                    color
                } else {
                    old(self).pixel(i, j)
                },
            *final(self) == *final(r),
    {
        let mut y: usize = 0;
        while y < len
            invariant
                y <= len,
                self.spec_width() == old(self).spec_width(),
                self.spec_height() == old(self).spec_height(),
                forall|i: usize, j: usize|
                    #[trigger] self.pixel(i, j) == if i == x && j < y {
                        color
                    } else {
                        old(self).pixel(i, j)
                    },
            decreases len - y,
        {
            self.set_pixel(x, y, color);
            y = y + 1;
        }
        self
    }

    /// Fills row `y` across the width of the framebuffer.
    fn fill_row(&mut self, y: usize, color: RgbColor) -> (r: &mut Self)
        ensures
            r.spec_width() == old(self).spec_width(),
            r.spec_height() == old(self).spec_height(),
            forall|i: usize, j: usize|
                #[trigger] r.pixel(i, j) == if j == y && i < old(self).spec_width() {
                    color
                } else {
                    old(self).pixel(i, j)
                },
            *final(self) == *final(r),
    {
        let w = self.width();
        self.line_horiz(y, w, color)
    }

    /// Fills column `x` across the height of the framebuffer.
    fn fill_col(&mut self, x: usize, color: RgbColor) -> (r: &mut Self)
        ensures
            r.spec_width() == old(self).spec_width(),
            r.spec_height() == old(self).spec_height(),
            forall|i: usize, j: usize|
                #[trigger] r.pixel(i, j) == if i == x && j < old(self).spec_height() {
                    color
                } else {
                    old(self).pixel(i, j)
                },
            *final(self) == *final(r),
    {
        let h = self.height();
        self.line_vert(x, h, color)
    }

    /// Fills the whole framebuffer with `color`, row by row.
    fn fill(&mut self, color: RgbColor) -> (r: &mut Self)
        ensures
            r.spec_width() == old(self).spec_width(),
            r.spec_height() == old(self).spec_height(),
            forall|i: usize, j: usize|
                #[trigger] r.pixel(i, j) == if i < old(self).spec_width() && j < old(self).spec_height() {
                    color
                } else {
                    old(self).pixel(i, j)
                },
            *final(self) == *final(r),
    {
        let h = self.height();
        let mut y: usize = 0;
        while y < h
            invariant
                y <= h,
                h == old(self).spec_height(),
                self.spec_width() == old(self).spec_width(),
                self.spec_height() == old(self).spec_height(),
                forall|i: usize, j: usize|
                    #[trigger] self.pixel(i, j) == if i < old(self).spec_width() && j < y {
                        color
                    } else {
                        old(self).pixel(i, j)
                    },
            decreases h - y,
        {
            let w = self.width();
            self.line_horiz(y, w, color);
            y = y + 1;
        }
        self
    }

    /// Clears the whole framebuffer to black.
    fn clear(&mut self) -> (r: &mut Self)
        ensures
            r.spec_width() == old(self).spec_width(),
            r.spec_height() == old(self).spec_height(),
            forall|i: usize, j: usize|
                #[trigger] r.pixel(i, j) == if i < old(self).spec_width() && j < old(self).spec_height() {
                    (RgbColor { red: 0, green: 0, blue: 0 })
                } else {
                    old(self).pixel(i, j)
                },
            *final(self) == *final(r),
    {
        self.fill(RgbColor::black());
        self
    }
}

/// A framebuffer wrapped for use as a drawing target of a graphics library.
#[derive(Copy, Clone, Debug)]
pub struct DrawTarget<D>(D);

impl<D> DrawTarget<D> {
    /// The wrapped framebuffer.
    pub closed spec fn inner(&self) -> D {
        self.0
    }
}

impl<D: Draw> DrawTarget<D> {
    /// Wraps `draw`.
    pub fn new(draw: D) -> (r: Self)
        ensures
            r.inner() == draw,
    {
        DrawTarget(draw)
    }

    /// Returns the framebuffer's width and height in pixels, each cut to its
    /// low 32 bits, the form in which graphics libraries take a size.
    pub fn size(&self) -> (r: (u32, u32))
        ensures
            r.0 == self.inner().spec_width() as u32,
            r.1 == self.inner().spec_height() as u32,
    {
        let width = self.0.width() as u32;
        let height = self.0.height() as u32;
        (width, height)
    }

    /// Returns a mutable reference to the wrapped framebuffer.
    pub fn inner_mut(&mut self) -> (r: &mut D)
        ensures
            *r == old(self).inner(),
            final(self).inner() == *final(r),
    {
        &mut self.0
    }

    /// Unwraps the framebuffer.
    pub fn into_inner(self) -> (r: D)
        ensures
            r == self.inner(),
    {
        self.0
    }
}

} // verus!
