use mycelium::framebuffer::{Draw, DrawTarget, RgbColor};

/// A framebuffer held in memory, one color per pixel, row by row.
struct MemFramebuffer {
    width: usize,
    height: usize,
    pixels: Vec<RgbColor>,
}

impl MemFramebuffer {
    fn new(width: usize, height: usize) -> Self {
        let white = RgbColor { red: 255, green: 255, blue: 255 };
        Self { width, height, pixels: vec![white; width * height] }
    }

    fn at(&self, x: usize, y: usize) -> RgbColor {
        self.pixels[y * self.width + x]
    }
}

impl Draw for MemFramebuffer {
    // The size and pixels as the library's contracts speak of them.
    fn spec_width(&self) -> usize {
        self.width
    }

    fn spec_height(&self) -> usize {
        self.height
    }

    fn pixel(&self, x: usize, y: usize) -> RgbColor {
        self.at(x, y)
    }

    fn width(&self) -> usize {
        self.width
    }

    fn height(&self) -> usize {
        self.height
    }

    fn set_pixel(&mut self, x: usize, y: usize, color: RgbColor) -> &mut Self {
        if x < self.width && y < self.height {
            self.pixels[y * self.width + x] = color;
        }
        self
    }
}

#[test]
fn named_colors() {
    assert_eq!(RgbColor::black(), RgbColor { red: 0, green: 0, blue: 0 });
    assert_eq!(RgbColor::red(), RgbColor { red: 255, green: 0, blue: 0 });
    assert_eq!(RgbColor::green(), RgbColor { red: 0, green: 255, blue: 0 });
    assert_eq!(RgbColor::blue(), RgbColor { red: 0, green: 0, blue: 255 });
}

#[test]
fn lines_touch_only_their_pixels() {
    let mut fb = MemFramebuffer::new(4, 3);
    let white = fb.at(0, 0);
    fb.line_horiz(1, 3, RgbColor::red());
    assert_eq!(fb.at(0, 1), RgbColor::red());
    assert_eq!(fb.at(2, 1), RgbColor::red());
    assert_eq!(fb.at(3, 1), white);
    assert_eq!(fb.at(0, 0), white);
    fb.line_vert(3, 2, RgbColor::blue());
    assert_eq!(fb.at(3, 0), RgbColor::blue());
    assert_eq!(fb.at(3, 1), RgbColor::blue());
    assert_eq!(fb.at(3, 2), white);
}

#[test]
fn fills_and_clear() {
    let mut fb = MemFramebuffer::new(3, 2);
    fb.fill_row(0, RgbColor::green());
    assert!((0..3).all(|x| fb.at(x, 0) == RgbColor::green()));
    assert!((0..3).all(|x| fb.at(x, 1) != RgbColor::green()));
    fb.fill_col(2, RgbColor::red());
    assert!((0..2).all(|y| fb.at(2, y) == RgbColor::red()));
    fb.fill(RgbColor::blue());
    assert!(fb.pixels.iter().all(|c| *c == RgbColor::blue()));
    fb.clear();
    assert!(fb.pixels.iter().all(|c| *c == RgbColor::black()));
}

#[test]
fn draw_target_wraps_a_framebuffer() {
    let mut target = DrawTarget::new(MemFramebuffer::new(2, 2));
    target.inner_mut().fill(RgbColor::red());
    let fb = target.into_inner();
    assert!(fb.pixels.iter().all(|c| *c == RgbColor::red()));
}
