//! The viewport on the world: a rectangle that scrolls within fixed limits.

use crate::arith::trunc_div;
use crate::geometry::{Point, Rectangle};
use vstd::prelude::*;

verus! {

/// The speed, in pixels per second, of a camera for which none was chosen.
pub const DEFAULT_SPEED: i32 = 256;

/// `value` held to the range from zero to `maximum`. Where `maximum` is
/// negative the result is zero.
pub open spec fn clamped(value: int, maximum: int) -> int {
    let capped = if value > maximum {
        maximum
    } else {
        value
    };
    if capped < 0 {
        0
    } else {
        capped
    }
}

/// The distance in whole pixels that is covered in `delta_ms` milliseconds at
/// `speed` pixels per second, scaled by `direction`. A part of a pixel is
/// dropped.
pub open spec fn travel(direction: int, speed: int, delta_ms: int) -> int {
    trunc_div(direction * speed * delta_ms, 1000)
}

/// The mathematical content of a [`Camera`].
pub struct CameraView {
    pub x: int,
    pub y: int,
    pub width: int,
    pub height: int,
    pub max_x: int,
    pub max_y: int,
    pub speed: int,
}

impl CameraView {
    /// Positions, limits and speed are 32-bit signed numbers, the extent is
    /// a pair of 32-bit unsigned numbers.
    pub open spec fn in_range(self) -> bool {
        &&& i32::MIN <= self.x <= i32::MAX
        &&& i32::MIN <= self.y <= i32::MAX
        &&& 0 <= self.width <= u32::MAX
        &&& 0 <= self.height <= u32::MAX
        &&& i32::MIN <= self.max_x <= i32::MAX
        &&& i32::MIN <= self.max_y <= i32::MAX
        &&& i32::MIN <= self.speed <= i32::MAX
    }

    /// The position lies within the scroll limits.
    pub open spec fn in_bounds(self) -> bool {
        0 <= self.x <= self.max_x && 0 <= self.y <= self.max_y
    }

    /// The camera after it travelled for `delta_ms` milliseconds in the
    /// direction `(dir_x, dir_y)`: each axis moves on its own and is then
    /// held to its scroll limit.
    pub open spec fn moved(self, delta_ms: int, dir_x: int, dir_y: int) -> CameraView {
        CameraView {
            x: clamped(self.x + travel(dir_x, self.speed, delta_ms), self.max_x),
            y: clamped(self.y + travel(dir_y, self.speed, delta_ms), self.max_y),
            ..self
        }
    }
}

/// A camera that moved lies within its scroll limits, provided that the
/// limits are not negative.
pub proof fn lemma_moved_in_bounds(camera: CameraView, delta_ms: int, dir_x: int, dir_y: int)
    requires
        camera.max_x >= 0,
        camera.max_y >= 0,
    ensures
        camera.moved(delta_ms, dir_x, dir_y).in_bounds(),
{
}

/// A move changes nothing but the position.
pub proof fn lemma_moved_keeps_shape(camera: CameraView, delta_ms: int, dir_x: int, dir_y: int)
    ensures
        camera.moved(delta_ms, dir_x, dir_y).width == camera.width,
        camera.moved(delta_ms, dir_x, dir_y).height == camera.height,
        camera.moved(delta_ms, dir_x, dir_y).max_x == camera.max_x,
        camera.moved(delta_ms, dir_x, dir_y).max_y == camera.max_y,
        camera.moved(delta_ms, dir_x, dir_y).speed == camera.speed,
{
}

/// The position `from` after `delta_ms` milliseconds of travel, held to the
/// range from zero to `maximum`.
fn advance(from: i32, maximum: i32, direction: i32, speed: i32, delta_ms: u32) -> (to: i32)
    ensures
        to == clamped(from + travel(direction as int, speed as int, delta_ms as int), maximum as int),
{
    let d: i128 = direction as i128;
    let s: i128 = speed as i128;
    let t: i128 = delta_ms as i128;
    assert(-0x8000_0000 * 0x8000_0000 <= d * s <= 0x8000_0000 * 0x8000_0000) by (nonlinear_arith)
        requires
            -0x8000_0000 <= d <= 0x8000_0000,
            -0x8000_0000 <= s <= 0x8000_0000,
    ;
    let ds: i128 = d * s;
    assert(-0x4000_0000_0000_0000 * 0x1_0000_0000 <= ds * t <= 0x4000_0000_0000_0000
        * 0x1_0000_0000) by (nonlinear_arith)
        requires
            -0x4000_0000_0000_0000 <= ds <= 0x4000_0000_0000_0000,
            0 <= t <= 0x1_0000_0000,
    ;
    let step: i128 = (ds * t) / 1000;
    let target: i128 = from as i128 + step;
    if target > maximum as i128 {
        if maximum < 0 {
            0
        } else {
            maximum
        }
    } else if target < 0 {
        0
    } else {
        target as i32
    }
}

/// The viewport on the world.
///
/// The rectangle says which part of the world is visible, in pixels. The
/// position scrolls between zero and `maximum`; `speed` is the distance in
/// pixels that the camera travels per second.
#[derive(Clone, Copy, Debug, PartialEq, Eq, Structural)]
pub struct Camera {
    rect: Rectangle,
    maximum: Point,
    speed: i32,
}

impl View for Camera {
    type V = CameraView;

    closed spec fn view(&self) -> CameraView {
        CameraView {
            x: self.rect.x as int,
            y: self.rect.y as int,
            width: self.rect.width as int,
            height: self.rect.height as int,
            max_x: self.maximum.x as int,
            max_y: self.maximum.y as int,
            speed: self.speed as int,
        }
    }
}

impl Default for Camera {
    /// A camera without extent at the origin, with the default speed.
    fn default() -> (camera: Camera)
        ensures
            camera@ == Camera::default_view(),
    {
        Camera {
            rect: Rectangle { x: 0, y: 0, width: 0, height: 0 },
            maximum: Point { x: 0, y: 0 },
            speed: DEFAULT_SPEED,
        }
    }
}

impl Camera {
    /// Starts a camera builder with default values.
    pub fn create() -> (builder: CameraBuilder)
        ensures
            builder@ == Camera::default_view(),
    {
        CameraBuilder::new()
    }

    /// The content of a camera is in range.
    pub proof fn lemma_view_in_range(self)
        ensures
            self@.in_range(),
    {
    }

    /// The content of a camera for which nothing was chosen.
    pub open spec fn default_view() -> CameraView {
        CameraView {
            x: 0,
            y: 0,
            width: 0,
            height: 0,
            max_x: 0,
            max_y: 0,
            speed: DEFAULT_SPEED as int,
        }
    }

    /// Creates a camera that shows `rect`, scrolls up to `maximum` and has
    /// the default speed.
    pub fn new(rect: Rectangle, maximum: Point) -> (camera: Camera)
        ensures
            camera@ == (CameraView {
                x: rect.x as int,
                y: rect.y as int,
                width: rect.width as int,
                height: rect.height as int,
                max_x: maximum.x as int,
                max_y: maximum.y as int,
                speed: DEFAULT_SPEED as int,
            }),
    {
        Camera { rect, maximum, speed: DEFAULT_SPEED }
    }

    /// The left edge of the viewport.
    pub fn x(&self) -> (x: i32)
        ensures
            x == self@.x,
    {
        self.rect.x
    }

    /// Puts the left edge of the viewport at `x`. The scroll limit is not
    /// applied.
    pub fn set_x(&mut self, x: i32)
        ensures
            final(self)@ == (CameraView { x: x as int, ..old(self)@ }),
    {
        self.rect.x = x;
    }

    /// The top edge of the viewport.
    pub fn y(&self) -> (y: i32)
        ensures
            y == self@.y,
    {
        self.rect.y
    }

    /// Puts the top edge of the viewport at `y`. The scroll limit is not
    /// applied.
    pub fn set_y(&mut self, y: i32)
        ensures
            final(self)@ == (CameraView { y: y as int, ..old(self)@ }),
    {
        self.rect.y = y;
    }

    /// The top-left corner of the viewport.
    pub fn position(&self) -> (position: (i32, i32))
        ensures
            position.0 == self@.x,
            position.1 == self@.y,
    {
        (self.rect.x, self.rect.y)
    }

    /// Puts the top-left corner of the viewport at `(x, y)`. The scroll
    /// limits are not applied.
    pub fn set_position(&mut self, x: i32, y: i32)
        ensures
            final(self)@ == (CameraView { x: x as int, y: y as int, ..old(self)@ }),
    {
        self.rect.x = x;
        self.rect.y = y;
    }

    /// The width of the viewport.
    pub fn width(&self) -> (width: u32)
        ensures
            width == self@.width,
    {
        self.rect.width
    }

    /// Sets the width of the viewport.
    pub fn set_width(&mut self, width: u32)
        ensures
            final(self)@ == (CameraView { width: width as int, ..old(self)@ }),
    {
        self.rect.width = width;
    }

    /// The height of the viewport.
    pub fn height(&self) -> (height: u32)
        ensures
            height == self@.height,
    {
        self.rect.height
    }

    /// Sets the height of the viewport.
    pub fn set_height(&mut self, height: u32)
        ensures
            final(self)@ == (CameraView { height: height as int, ..old(self)@ }),
    {
        self.rect.height = height;
    }

    /// The extent of the viewport.
    pub fn size(&self) -> (size: (u32, u32))
        ensures
            size.0 == self@.width,
            size.1 == self@.height,
    {
        (self.rect.width, self.rect.height)
    }

    /// Sets the extent of the viewport.
    pub fn set_size(&mut self, width: u32, height: u32)
        ensures
            final(self)@ == (CameraView {
                width: width as int,
                height: height as int,
                ..old(self)@
            }),
    {
        self.rect.width = width;
        self.rect.height = height;
    }

    /// The scroll limit: the largest position that a move leads to.
    pub fn maximum(&self) -> (maximum: &Point)
        ensures
            maximum.x == self@.max_x,
            maximum.y == self@.max_y,
    {
        &self.maximum
    }

    /// Sets the scroll limit. The position stays as it is.
    pub fn set_maximum(&mut self, x: i32, y: i32)
        ensures
            final(self)@ == (CameraView { max_x: x as int, max_y: y as int, ..old(self)@ }),
    {
        self.maximum.x = x;
        self.maximum.y = y;
    }

    /// The speed in pixels per second.
    pub fn speed(&self) -> (speed: i32)
        ensures
            speed == self@.speed,
    {
        self.speed
    }

    /// Sets the speed in pixels per second.
    pub fn set_speed(&mut self, speed: i32)
        ensures
            final(self)@ == (CameraView { speed: speed as int, ..old(self)@ }),
    {
        self.speed = speed;
    }

    /// Moves the camera for `delta_ms` milliseconds in the direction
    /// `(dir_x, dir_y)` and holds the position to the scroll limits.
    pub fn mov(&mut self, delta_ms: u32, dir_x: i32, dir_y: i32)
        ensures
            final(self)@ == old(self)@.moved(delta_ms as int, dir_x as int, dir_y as int),
    {
        self.rect.x = advance(self.rect.x, self.maximum.x, dir_x, self.speed, delta_ms);
        self.rect.y = advance(self.rect.y, self.maximum.y, dir_y, self.speed, delta_ms);
    }
}

/// Assembles a [`Camera`] field by field.
#[derive(Clone, Copy, Debug, PartialEq, Eq, Structural)]
pub struct CameraBuilder {
    rect: Rectangle,
    maximum: Point,
    speed: i32,
}

impl View for CameraBuilder {
    type V = CameraView;

    closed spec fn view(&self) -> CameraView {
        CameraView {
            x: self.rect.x as int,
            y: self.rect.y as int,
            width: self.rect.width as int,
            height: self.rect.height as int,
            max_x: self.maximum.x as int,
            max_y: self.maximum.y as int,
            speed: self.speed as int,
        }
    }
}

impl CameraBuilder {
    /// Starts a builder with default values.
    pub fn new() -> (builder: CameraBuilder)
        ensures
            builder@ == Camera::default_view(),
    {
        CameraBuilder {
            rect: Rectangle { x: 0, y: 0, width: 0, height: 0 },
            maximum: Point { x: 0, y: 0 },
            speed: DEFAULT_SPEED,
        }
    }

    /// Chooses the left edge of the viewport.
    pub fn x(self, x: i32) -> (builder: CameraBuilder)
        ensures
            builder@ == (CameraView { x: x as int, ..self@ }),
    {
        let mut builder = self;
        builder.rect.x = x;
        builder
    }

    /// Chooses the top edge of the viewport.
    pub fn y(self, y: i32) -> (builder: CameraBuilder)
        ensures
            builder@ == (CameraView { y: y as int, ..self@ }),
    {
        let mut builder = self;
        builder.rect.y = y;
        builder
    }

    /// Chooses the width of the viewport.
    pub fn width(self, width: u32) -> (builder: CameraBuilder)
        ensures
            builder@ == (CameraView { width: width as int, ..self@ }),
    {
        let mut builder = self;
        builder.rect.width = width;
        builder
    }

    /// Chooses the height of the viewport.
    pub fn height(self, height: u32) -> (builder: CameraBuilder)
        ensures
            builder@ == (CameraView { height: height as int, ..self@ }),
    {
        let mut builder = self;
        builder.rect.height = height;
        builder
    }

    /// Chooses the horizontal scroll limit.
    pub fn max_width(self, max_width: i32) -> (builder: CameraBuilder)
        ensures
            builder@ == (CameraView { max_x: max_width as int, ..self@ }),
    {
        let mut builder = self;
        builder.maximum.x = max_width;
        builder
    }

    /// Chooses the vertical scroll limit.
    pub fn max_height(self, max_height: i32) -> (builder: CameraBuilder)
        ensures
            builder@ == (CameraView { max_y: max_height as int, ..self@ }),
    {
        let mut builder = self;
        builder.maximum.y = max_height;
        builder
    }

    /// Chooses the speed in pixels per second.
    pub fn speed(self, speed: i32) -> (builder: CameraBuilder)
        ensures
            builder@ == (CameraView { speed: speed as int, ..self@ }),
    {
        let mut builder = self;
        builder.speed = speed;
        builder
    }

    /// Builds the camera with what was chosen.
    pub fn build(self) -> (camera: Camera)
        ensures
            camera@ == self@,
    {
        Camera { rect: self.rect, maximum: self.maximum, speed: self.speed }
    }
}

impl Default for CameraBuilder {
    /// A builder with default values.
    fn default() -> (builder: CameraBuilder)
        ensures
            builder@ == Camera::default_view(),
    {
        CameraBuilder::new()
    }
}

} // verus!
