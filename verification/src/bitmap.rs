//! Pixel images as plain values: what tiles and sprites are drawn into.

use vstd::prelude::*;

verus! {

/// A colour with eight bits for each of red, green, blue and opacity.
#[derive(Debug, Clone, Copy, PartialEq, Eq, Structural)]
pub struct Rgba {
    pub r: u8,
    pub g: u8,
    pub b: u8,
    pub a: u8,
}

/// The pixel that shows nothing.
pub open spec fn transparent() -> Rgba {
    Rgba { r: 0, g: 0, b: 0, a: 0 }
}

/// A rectangle of pixels, stored row by row from the top left.
#[derive(Debug)]
pub struct Bitmap {
    width: u32,
    height: u32,
    pixels: Vec<Rgba>,
}

/// What a [`Bitmap`] stands for.
pub struct BitmapView {
    pub width: int,
    pub height: int,
    pub pixels: Seq<Rgba>,
}

impl BitmapView {
    /// The pixel in column `x` of row `y`.
    pub open spec fn pixel(self, x: int, y: int) -> Rgba
        recommends
            0 <= x < self.width,
            0 <= y < self.height,
    {
        self.pixels[y * self.width + x]
    }

    /// Whether `x`, `y` is a place in the image.
    pub open spec fn contains(self, x: int, y: int) -> bool {
        0 <= x < self.width && 0 <= y < self.height
    }
}

/// The index of a place in an image of width `width` lies in the image, and
/// no two places share an index.
pub proof fn lemma_pixel_index(width: int, height: int, x: int, y: int)
    requires
        0 <= x < width,
        0 <= y < height,
    ensures
        0 <= y * width + x < width * height,
        (y * width + x) / width == y,
        (y * width + x) % width == x,
{
    assert(0 <= y * width) by (nonlinear_arith)
        requires
            0 <= y,
            0 <= width,
    ;
    assert(y * width + width <= height * width) by (nonlinear_arith)
        requires
            y + 1 <= height,
            0 <= width,
    ;
    assert(height * width == width * height) by (nonlinear_arith);
    vstd::arithmetic::div_mod::lemma_fundamental_div_mod_converse(y * width + x, width, y, x);
}

/// The pixels of `image` resized to `width` by `height` pixels with the
/// nearest-neighbour filter, as the `image` crate computes them.
pub uninterp spec fn resized(image: BitmapView, width: u32, height: u32) -> Seq<Rgba>;

impl BitmapView {
    /// Whether the image can be resized to `width` by `height` pixels: the
    /// buffers that resizing allocates have four values to the pixel, and
    /// their lengths must be numbers of the machine.
    pub open spec fn can_resize(self, width: u32, height: u32) -> bool {
        4 * (self.width * height) <= usize::MAX && 4 * (width * height) <= usize::MAX
    }

    /// Whether the image can be enlarged `factor` times in each direction.
    pub open spec fn can_enlarge(self, factor: u32) -> bool {
        &&& self.width * factor <= u32::MAX
        &&& self.height * factor <= u32::MAX
        &&& self.can_resize((self.width * factor) as u32, (self.height * factor) as u32)
    }
}

/// Resizes `image` to `width` by `height` pixels.
///
/// Calls `image::imageops::resize` with `FilterType::Nearest` on an image
/// buffer that holds the pixels of `image`, and hands back the pixels of the
/// buffer it returns. That buffer has the size asked for, and what it holds
/// depends on the pixels and the two sizes alone. The function allocates one
/// buffer of the old width and the new height and one of the new size, and
/// panics where the length of one overflows: those sizes are left out.
#[verifier::external_body]
fn resize_nearest(image: &Bitmap, width: u32, height: u32) -> (scaled: Bitmap)
    requires
        image@.can_resize(width, height),
    ensures
        scaled@.width == width,
        scaled@.height == height,
        scaled@.pixels == resized(image@, width, height),
{
    let raw: Vec<u8> = image.pixels.iter().flat_map(|p| [p.r, p.g, p.b, p.a]).collect();
    let source = image::RgbaImage::from_raw(image.width, image.height, raw).unwrap();
    let filter = image::imageops::FilterType::Nearest;
    let scaled = image::imageops::resize(&source, width, height, filter);
    let pixels = scaled.pixels().map(|p| Rgba { r: p.0[0], g: p.0[1], b: p.0[2], a: p.0[3] });
    Bitmap { width, height, pixels: pixels.collect() }
}

impl View for Bitmap {
    type V = BitmapView;

    closed spec fn view(&self) -> BitmapView {
        BitmapView { width: self.width as int, height: self.height as int, pixels: self.pixels@ }
    }
}

impl Bitmap {
    #[verifier::type_invariant]
    spec fn filled(self) -> bool {
        self.pixels@.len() == self.width * self.height
    }

    /// An image of the given size in which every pixel is transparent.
    pub fn new(width: u32, height: u32) -> (image: Self)
        requires
            width * height <= usize::MAX,
        ensures
            image@.width == width,
            image@.height == height,
            image@.pixels == Seq::new((width * height) as nat, |i: int| transparent()),
            forall|x: int, y: int| #[trigger]
                image@.contains(x, y) ==> image@.pixel(x, y) == transparent(),
    {
        let count: usize = width as usize * height as usize;
        let mut pixels: Vec<Rgba> = Vec::new();
        let mut i: usize = 0;
        while i < count
            invariant
                i <= count,
                pixels@ == Seq::new(i as nat, |k: int| transparent()),
            decreases count - i,
        {
            pixels.push(Rgba { r: 0, g: 0, b: 0, a: 0 });
            assert(pixels@ =~= Seq::new((i + 1) as nat, |k: int| transparent()));
            i += 1;
        }
        let image = Bitmap { width, height, pixels };
        proof {
            assert forall|x: int, y: int| #[trigger] image@.contains(x, y) implies image@.pixel(
                x,
                y,
            ) == transparent() by {
                lemma_pixel_index(width as int, height as int, x, y);
            }
        }
        image
    }

    /// The width in pixels.
    pub fn width(&self) -> (w: u32)
        ensures
            w == self@.width,
    {
        self.width
    }

    /// The height in pixels.
    pub fn height(&self) -> (h: u32)
        ensures
            h == self@.height,
    {
        self.height
    }

    /// The pixels, row by row; there are `width * height` of them.
    pub fn pixels(&self) -> (pixels: &[Rgba])
        ensures
            pixels@ == self@.pixels,
            pixels@.len() == self@.width * self@.height,
    {
        proof {
            use_type_invariant(self);
        }
        self.pixels.as_slice()
    }

    /// The pixel in column `x` of row `y`.
    pub fn get_pixel(&self, x: u32, y: u32) -> (p: Rgba)
        requires
            self@.contains(x as int, y as int),
        ensures
            p == self@.pixel(x as int, y as int),
    {
        proof {
            use_type_invariant(self);
            lemma_pixel_index(self.width as int, self.height as int, x as int, y as int);
        }
        let count = self.pixels.len();
        assert(y * self.width + x < count);
        self.pixels[y as usize * self.width as usize + x as usize]
    }

    /// Sets the pixel in column `x` of row `y`; the others stay as they are.
    pub fn put_pixel(&mut self, x: u32, y: u32, pixel: Rgba)
        requires
            old(self)@.contains(x as int, y as int),
        ensures
            final(self)@.width == old(self)@.width,
            final(self)@.height == old(self)@.height,
            final(self)@.pixels == old(self)@.pixels.update(y * old(self)@.width + x, pixel),
            forall|px: int, py: int| #[trigger]
                final(self)@.contains(px, py) ==> final(self)@.pixel(px, py) == (if px == x && py
                    == y {
                    pixel
                } else {
                    old(self)@.pixel(px, py)
                }),
    {
        proof {
            use_type_invariant(&*self);
            lemma_pixel_index(self.width as int, self.height as int, x as int, y as int);
        }
        let count = self.pixels.len();
        assert(y * self.width + x < count);
        let at = y as usize * self.width as usize + x as usize;
        self.pixels[at] = pixel;
        proof {
            assert forall|px: int, py: int| #[trigger] self@.contains(px, py) implies self@.pixel(
                px,
                py,
            ) == (if px == x && py == y {
                pixel
            } else {
                old(self)@.pixel(px, py)
            }) by {
                lemma_pixel_index(self.width as int, self.height as int, px, py);
            }
        }
    }

    /// Copies `other` into this image with its top left corner at column `x`
    /// of row `y`; the pixels outside that rectangle stay as they are.
    pub fn copy_from(&mut self, other: &Bitmap, x: u32, y: u32)
        requires
            x + other@.width <= old(self)@.width,
            y + other@.height <= old(self)@.height,
        ensures
            final(self)@.width == old(self)@.width,
            final(self)@.height == old(self)@.height,
            forall|px: int, py: int| #[trigger]
                final(self)@.contains(px, py) ==> final(self)@.pixel(px, py) == (if x <= px < x
                    + other@.width && y <= py < y + other@.height {
                    other@.pixel(px - x, py - y)
                } else {
                    old(self)@.pixel(px, py)
                }),
    {
        let mut row: u32 = 0;
        while row < other.height
            invariant
                row <= other@.height,
                self@.width == old(self)@.width,
                self@.height == old(self)@.height,
                x + other@.width <= self@.width,
                y + other@.height <= self@.height,
                forall|px: int, py: int| #[trigger]
                    self@.contains(px, py) ==> self@.pixel(px, py) == (if x <= px < x
                        + other@.width && y <= py < y + row {
                        other@.pixel(px - x, py - y)
                    } else {
                        old(self)@.pixel(px, py)
                    }),
            decreases other@.height - row,
        {
            let mut col: u32 = 0;
            while col < other.width
                invariant
                    row < other@.height,
                    col <= other@.width,
                    self@.width == old(self)@.width,
                    self@.height == old(self)@.height,
                    x + other@.width <= self@.width,
                    y + other@.height <= self@.height,
                    forall|px: int, py: int| #[trigger]
                        self@.contains(px, py) ==> self@.pixel(px, py) == (if (x <= px < x
                            + other@.width && y <= py < y + row) || (x <= px < x + col && py == y
                            + row) {
                            other@.pixel(px - x, py - y)
                        } else {
                            old(self)@.pixel(px, py)
                        }),
                decreases other@.width - col,
            {
                let pixel = other.get_pixel(col, row);
                let ghost before = self@;
                self.put_pixel(x + col, y + row, pixel);
                proof {
                    assert forall|px: int, py: int| #[trigger]
                        self@.contains(px, py) implies self@.pixel(px, py) == (if px == x + col
                        && py == y + row {
                        pixel
                    } else {
                        before.pixel(px, py)
                    }) && before.contains(px, py) by {}
                }
                col += 1;
            }
            row += 1;
        }
    }

    /// This image enlarged `factor` times in each direction, or nothing
    /// where an image of that size cannot be made.
    pub fn enlarged(&self, factor: u32) -> (r: Option<Bitmap>)
        ensures
            match r {
                Some(large) => {
                    &&& self@.can_enlarge(factor)
                    &&& large@.width == self@.width * factor
                    &&& large@.height == self@.height * factor
                    &&& large@.pixels == resized(
                        self@,
                        (self@.width * factor) as u32,
                        (self@.height * factor) as u32,
                    )
                },
                None => !self@.can_enlarge(factor),
            },
    {
        let width = match self.width.checked_mul(factor) {
            Some(width) => width,
            None => {
                return None;
            },
        };
        let height = match self.height.checked_mul(factor) {
            Some(height) => height,
            None => {
                return None;
            },
        };
        match (self.width as usize).checked_mul(height as usize) {
            Some(count) => {
                if count.checked_mul(4).is_none() {
                    return None;
                }
            },
            None => {
                assert(4 * (self@.width * height) >= self@.width * height) by (nonlinear_arith)
                    requires
                        self@.width * height >= 0,
                ;
                return None;
            },
        }
        match (width as usize).checked_mul(height as usize) {
            Some(count) => {
                if count.checked_mul(4).is_none() {
                    return None;
                }
            },
            None => {
                assert(4 * (width * height) >= width * height) by (nonlinear_arith)
                    requires
                        width * height >= 0,
                ;
                return None;
            },
        }
        Some(resize_nearest(self, width, height))
    }
}

} // verus!
