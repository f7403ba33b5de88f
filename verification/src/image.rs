//! Pixel buffers: the tileset that tiles are read from and the target that
//! they are painted into.

use vstd::prelude::*;

verus! {

/// A grid of pixels, stored row by row.
pub struct Pixels {
    pub width: nat,
    pub height: nat,
    pub data: Seq<u32>,
}

impl Pixels {
    /// The grid holds one value for each of its pixels.
    pub open spec fn wf(self) -> bool {
        self.data.len() == self.width * self.height
    }

    /// Width and height are 32-bit unsigned numbers.
    pub open spec fn in_range(self) -> bool {
        self.width <= u32::MAX && self.height <= u32::MAX
    }

    /// Whether `(x, y)` is a pixel of the grid.
    pub open spec fn contains(self, x: int, y: int) -> bool {
        0 <= x < self.width && 0 <= y < self.height
    }

    /// The position of the pixel `(x, y)` in `data`.
    pub open spec fn offset(self, x: int, y: int) -> int {
        y * self.width + x
    }

    /// The value of the pixel `(x, y)`.
    pub open spec fn pixel(self, x: int, y: int) -> u32
        recommends
            self.contains(x, y),
    {
        self.data[self.offset(x, y)]
    }

    /// The grid in which the pixel `(x, y)` has the value `value`.
    pub open spec fn with_pixel(self, x: int, y: int, value: u32) -> Pixels
        recommends
            self.contains(x, y),
    {
        Pixels { data: self.data.update(self.offset(x, y), value), ..self }
    }
}

/// The grid of the given extent whose pixels are all zero.
pub open spec fn blank(width: nat, height: nat) -> Pixels {
    Pixels { width, height, data: Seq::new(width * height, |i: int| 0u32) }
}

/// The pixels of a well-formed grid have positions of their own in `data`.
pub proof fn lemma_offset_in_range(pixels: Pixels, x: int, y: int)
    requires
        pixels.wf(),
        pixels.contains(x, y),
    ensures
        0 <= pixels.offset(x, y) < pixels.data.len(),
        pixels.offset(x, y) / (pixels.width as int) == y,
        pixels.offset(x, y) % (pixels.width as int) == x,
{
    let w = pixels.width as int;
    let h = pixels.height as int;
    assert(y * w + x < h * w) by (nonlinear_arith)
        requires
            0 <= x < w,
            0 <= y < h,
    ;
    assert(0 <= y * w) by (nonlinear_arith)
        requires
            0 <= y,
            0 <= w,
    ;
    assert(h * w == w * h) by (nonlinear_arith);
    vstd::arithmetic::div_mod::lemma_fundamental_div_mod_converse(y * w + x, w, y, x);
}

/// The position of the pixel `(x, y)` in the data of a grid of the given
/// extent.
fn offset_of(width: u32, height: u32, x: u32, y: u32) -> (offset: u64)
    requires
        x < width,
        y < height,
    ensures
        offset == y * width + x,
        offset < width * height,
{
    assert(y * width + x < height * width <= 0xffff_ffff * 0xffff_ffff) by (nonlinear_arith)
        requires
            0 <= x < width <= 0xffff_ffff,
            0 <= y < height <= 0xffff_ffff,
    ;
    assert(0 <= y * width && height * width == width * height) by (nonlinear_arith);
    y as u64 * width as u64 + x as u64
}

/// A read-only bitmap, such as a tileset.
#[derive(Debug, PartialEq, Eq)]
pub struct Image {
    width: u32,
    height: u32,
    data: Vec<u32>,
}

impl View for Image {
    type V = Pixels;

    closed spec fn view(&self) -> Pixels {
        Pixels { width: self.width as nat, height: self.height as nat, data: self.data@ }
    }
}

impl Clone for Image {
    fn clone(&self) -> (copy: Image)
        ensures
            copy@ == self@,
    {
        proof {
            use_type_invariant(self);
        }
        Image { width: self.width, height: self.height, data: self.data.clone() }
    }
}

impl Image {
    /// Every bitmap holds one value for each of its pixels.
    #[verifier::type_invariant]
    pub open spec fn well_formed(self) -> bool {
        self@.wf()
    }

    /// The extent of an image is in range.
    pub proof fn lemma_view_in_range(self)
        ensures
            self@.in_range(),
    {
    }

    /// Creates an image from its pixels, given row by row. Returns `None`
    /// unless `data` holds exactly `width * height` values.
    pub fn new(width: u32, height: u32, data: Vec<u32>) -> (image: Option<Image>)
        ensures
            image.is_some() == (data@.len() == width * height),
            image matches Some(i) ==> i@ == (Pixels {
                width: width as nat,
                height: height as nat,
                data: data@,
            }),
    {
        assert(width * height <= 0xffff_ffff * 0xffff_ffff) by (nonlinear_arith)
            requires
                width <= 0xffff_ffff,
                height <= 0xffff_ffff,
        ;
        let pixels: u64 = width as u64 * height as u64;
        if data.len() as u64 == pixels {
            Some(Image { width, height, data })
        } else {
            None
        }
    }

    /// The width in pixels.
    pub fn width(&self) -> (width: u32)
        ensures
            width == self@.width,
    {
        self.width
    }

    /// The height in pixels.
    pub fn height(&self) -> (height: u32)
        ensures
            height == self@.height,
    {
        self.height
    }

    /// The pixels, row by row.
    pub fn data(&self) -> (data: &Vec<u32>)
        ensures
            data@ == self@.data,
    {
        &self.data
    }

    /// The value of the pixel `(x, y)`.
    pub fn pixel(&self, x: u32, y: u32) -> (value: u32)
        requires
            self@.contains(x as int, y as int),
        ensures
            value == self@.pixel(x as int, y as int),
    {
        proof {
            use_type_invariant(self);
            assert(self.data.len() == self.width * self.height);
        }
        let offset = offset_of(self.width, self.height, x, y);
        self.data[offset as usize]
    }
}

/// A bitmap that can be painted into.
#[derive(Debug, PartialEq, Eq)]
pub struct RenderTarget {
    width: u32,
    height: u32,
    data: Vec<u32>,
}

impl View for RenderTarget {
    type V = Pixels;

    closed spec fn view(&self) -> Pixels {
        Pixels { width: self.width as nat, height: self.height as nat, data: self.data@ }
    }
}

impl Clone for RenderTarget {
    fn clone(&self) -> (copy: RenderTarget)
        ensures
            copy@ == self@,
    {
        proof {
            use_type_invariant(self);
        }
        RenderTarget { width: self.width, height: self.height, data: self.data.clone() }
    }
}

impl RenderTarget {
    /// Every bitmap holds one value for each of its pixels.
    #[verifier::type_invariant]
    pub open spec fn well_formed(self) -> bool {
        self@.wf()
    }

    /// Creates a target of the given extent whose pixels are all zero.
    pub fn new(width: u32, height: u32) -> (target: RenderTarget)
        ensures
            target@ == blank(width as nat, height as nat),
    {
        let mut row: Vec<u32> = Vec::new();
        let mut x: u32 = 0;
        while x < width
            invariant
                x <= width,
                row@ == Seq::new(x as nat, |i: int| 0u32),
            decreases width - x,
        {
            row.push(0);
            x += 1;
        }
        let mut data: Vec<u32> = Vec::new();
        let mut y: u32 = 0;
        while y < height
            invariant
                y <= height,
                row@ == Seq::new(width as nat, |i: int| 0u32),
                data@ == Seq::new((width * y) as nat, |i: int| 0u32),
            decreases height - y,
        {
            assert(width * (y + 1) == width * y + width) by (nonlinear_arith);
            assert(0 <= width * y) by (nonlinear_arith);
            data.extend_from_slice(row.as_slice());
            y += 1;
        }
        RenderTarget { width, height, data }
    }

    /// The width in pixels.
    pub fn width(&self) -> (width: u32)
        ensures
            width == self@.width,
    {
        self.width
    }

    /// The height in pixels.
    pub fn height(&self) -> (height: u32)
        ensures
            height == self@.height,
    {
        self.height
    }

    /// The pixels, row by row.
    pub fn data(&self) -> (data: &Vec<u32>)
        ensures
            data@ == self@.data,
    {
        &self.data
    }

    /// The value of the pixel `(x, y)`.
    pub fn pixel(&self, x: u32, y: u32) -> (value: u32)
        requires
            self@.contains(x as int, y as int),
        ensures
            value == self@.pixel(x as int, y as int),
    {
        proof {
            use_type_invariant(self);
            assert(self.data.len() == self.width * self.height);
        }
        let offset = offset_of(self.width, self.height, x, y);
        self.data[offset as usize]
    }

    /// Gives the pixel `(x, y)` the value `value`.
    pub fn set_pixel(&mut self, x: u32, y: u32, value: u32)
        requires
            old(self)@.contains(x as int, y as int),
        ensures
            final(self)@ == old(self)@.with_pixel(x as int, y as int, value),
    {
        proof {
            use_type_invariant(&*self);
            assert(self.data.len() == self.width * self.height);
        }
        let offset = offset_of(self.width, self.height, x, y);
        self.data[offset as usize] = value;
    }
}

} // verus!
