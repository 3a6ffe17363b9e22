//! Single-channel 8-bit frames.

use vstd::prelude::*;

verus! {

/// What a frame is: its dimensions and its intensities in row-major order.
pub struct FrameView {
    pub width: nat,
    pub height: nat,
    pub pixels: Seq<u8>,
}

impl FrameView {
    /// The buffer holds exactly one intensity per pixel, and both dimensions
    /// fit the coordinate type.
    pub open spec fn wf(self) -> bool {
        &&& self.width <= u32::MAX
        &&& self.height <= u32::MAX
        &&& self.pixels.len() == self.width * self.height
    }

    /// Whether `(x, y)` names a pixel of the frame.
    pub open spec fn contains(self, x: int, y: int) -> bool {
        0 <= x < self.width && 0 <= y < self.height
    }

    /// Whether the rectangle with corner `(x, y)` and the given extent lies
    /// inside the frame.
    pub open spec fn contains_rect(self, x: int, y: int, width: int, height: int) -> bool {
        &&& 0 <= x
        &&& 0 <= y
        &&& 0 <= width
        &&& 0 <= height
        &&& x + width <= self.width
        &&& y + height <= self.height
    }

    /// The intensity at column `x`, row `y`.
    pub open spec fn pixel(self, x: int, y: int) -> u8
        recommends
            self.contains(x, y),
    {
        self.pixels[y * self.width + x]
    }

    /// The sub-frame of the given extent whose top-left pixel is `(x, y)`.
    pub open spec fn crop(self, x: int, y: int, width: nat, height: nat) -> FrameView
        recommends
            self.contains_rect(x, y, width as int, height as int),
    {
        FrameView {
            width,
            height,
            pixels: Seq::new(
                width * height,
                |k: int| self.pixel(x + k % (width as int), y + k / (width as int)),
            ),
        }
    }
}

/// Row-major indices of in-frame pixels are in range.
pub proof fn lemma_pixel_index(width: int, height: int, x: int, y: int)
    requires
        0 <= x < width,
        0 <= y < height,
    ensures
        0 <= y * width,
        y * width + x < width * height,
        (y * width + x) / width == y,
        (y * width + x) % width == x,
{
    assert(0 <= y * width) by (nonlinear_arith)
        requires
            0 <= y,
            0 <= width,
    ;
    assert(y * width + width <= width * height) by (nonlinear_arith)
        requires
            0 <= y < height,
            0 <= width,
    ;
    vstd::arithmetic::div_mod::lemma_fundamental_div_mod_converse(y * width + x, width, y, x);
}

/// A cropped rectangle is itself a well-formed frame whose pixels are those
/// of the rectangle.
pub proof fn lemma_crop(frame: FrameView, x: int, y: int, width: nat, height: nat)
    requires
        frame.wf(),
        frame.contains_rect(x, y, width as int, height as int),
    ensures
        frame.crop(x, y, width, height).wf(),
        forall|c: int, r: int|
            0 <= c < width && 0 <= r < height ==> #[trigger] frame.crop(x, y, width, height).pixel(
                c,
                r,
            ) == frame.pixel(x + c, y + r),
{
    let cropped = frame.crop(x, y, width, height);
    assert forall|c: int, r: int| 0 <= c < width && 0 <= r < height implies #[trigger] cropped.pixel(
        c,
        r,
    ) == frame.pixel(x + c, y + r) by {
        lemma_pixel_index(width as int, height as int, c, r);
    }
}

/// An owned single-channel 8-bit frame in row-major order.
pub struct GrayFrame {
    width: u32,
    height: u32,
    data: Vec<u8>,
}

impl View for GrayFrame {
    type V = FrameView;

    closed spec fn view(&self) -> FrameView {
        FrameView { width: self.width as nat, height: self.height as nat, pixels: self.data@ }
    }
}

impl GrayFrame {
    /// Every frame is well formed.
    #[verifier::type_invariant]
    pub open spec fn inv(&self) -> bool {
        self@.wf()
    }

    /// Builds a frame from its dimensions and row-major intensities; `None`
    /// when the buffer does not hold exactly `width * height` values.
    pub fn from_raw(width: u32, height: u32, data: Vec<u8>) -> (frame: Option<GrayFrame>)
        ensures
            match frame {
                Some(f) => f@ == (FrameView {
                    width: width as nat,
                    height: height as nat,
                    pixels: data@,
                }) && f@.wf(),
                None => data@.len() != width * height,
            },
    {
        assert(width * height <= u64::MAX) by (nonlinear_arith)
            requires
                width <= u32::MAX,
                height <= u32::MAX,
        ;
        let needed: u64 = (width as u64) * (height as u64);
        if data.len() as u64 == needed {
            Some(GrayFrame { width, height, data })
        } else {
            None
        }
    }

    pub fn width(&self) -> (width: u32)
        ensures
            width == self@.width,
    {
        self.width
    }

    pub fn height(&self) -> (height: u32)
        ensures
            height == self@.height,
    {
        self.height
    }

    /// The intensities in row-major order.
    pub fn as_raw(&self) -> (data: &Vec<u8>)
        ensures
            data@ == self@.pixels,
    {
        &self.data
    }

    /// The intensity at column `x`, row `y`.
    pub fn get_pixel(&self, x: u32, y: u32) -> (value: u8)
        requires
            self@.contains(x as int, y as int),
        ensures
            value == self@.pixel(x as int, y as int),
    {
        proof {
            use_type_invariant(self);
            lemma_pixel_index(self.width as int, self.height as int, x as int, y as int);
            assert(self.data@.len() == self.data.len());
        }
        let row: usize = y as usize * self.width as usize;
        self.data[row + x as usize]
    }

    /// Copies out the rectangle of the given extent whose top-left pixel is
    /// `(x, y)`.
    pub fn crop(&self, x: u32, y: u32, width: u32, height: u32) -> (cropped: GrayFrame)
        requires
            self@.contains_rect(x as int, y as int, width as int, height as int),
        ensures
            cropped@ == self@.crop(x as int, y as int, width as nat, height as nat),
            cropped@.wf(),
    {
        proof {
            use_type_invariant(self);
            lemma_crop(self@, x as int, y as int, width as nat, height as nat);
        }
        let ghost target = self@.crop(x as int, y as int, width as nat, height as nat);
        let mut data: Vec<u8> = Vec::new();
        let mut r: u32 = 0;
        while r < height
            invariant
                self@.wf(),
                self@.contains_rect(x as int, y as int, width as int, height as int),
                target == self@.crop(x as int, y as int, width as nat, height as nat),
                target.wf(),
                0 <= r <= height,
                data@.len() == r * width,
                data@ == target.pixels.take(r * width),
            decreases height - r,
        {
            let mut c: u32 = 0;
            while c < width
                invariant
                    self@.wf(),
                    self@.contains_rect(x as int, y as int, width as int, height as int),
                    target == self@.crop(x as int, y as int, width as nat, height as nat),
                    target.wf(),
                    0 <= r < height,
                    0 <= c <= width,
                    data@.len() == r * width + c,
                    data@ == target.pixels.take(r * width + c),
                decreases width - c,
            {
                proof {
                    lemma_pixel_index(width as int, height as int, c as int, r as int);
                }
                let value: u8 = self.get_pixel(x + c, y + r);
                data.push(value);
                c += 1;
            }
            assert((r + 1) * width == r * width + width) by (nonlinear_arith);
            r += 1;
        }
        assert(height * width == width * height) by (nonlinear_arith);
        assert(data@ == target.pixels);
        GrayFrame { width, height, data }
    }
}

/// The pixel `(x, y)` keeps `radius` pixels from the near edges of the frame
/// and more than `radius` from the far ones.
pub open spec fn inside_margin(frame: FrameView, x: u32, y: u32, radius: u32) -> bool {
    &&& radius <= x
    &&& radius <= y
    &&& x + radius < frame.width
    &&& y + radius < frame.height
}

/// Checks that the pixel nearest to a coordinate lies inside the frame with
/// `radius` to spare. `x` and `y` are the coordinate already rounded to the
/// nearest pixel.
pub fn inbound(image: &GrayFrame, x: u32, y: u32, radius: u32) -> (inside: bool)
    ensures
        inside == inside_margin(image@, x, y, radius),
{
    let width: u32 = image.width();
    let height: u32 = image.height();
    x >= radius && y >= radius && radius < width && x < width - radius && radius < height && y
        < height - radius
}

/// Side of the square of pixels that gradient sampling reads.
pub const WINDOW_SIDE: u32 = 4;

/// The window that gradient sampling reads around the pixel `(x, y)` lies in
/// the frame: columns `x - 1` to `x + 2`, rows `y - 1` to `y + 2`.
pub open spec fn window_in_frame(frame: FrameView, x: u32, y: u32) -> bool {
    frame.contains_rect(x - 1, y - 1, WINDOW_SIDE as int, WINDOW_SIDE as int)
}

/// Computes [`window_in_frame`].
pub fn window_in_bounds(image: &GrayFrame, x: u32, y: u32) -> (inside: bool)
    ensures
        inside == window_in_frame(image@, x, y),
{
    let width: u32 = image.width();
    let height: u32 = image.height();
    x >= 1 && y >= 1 && width >= 3 && x < width - 2 && height >= 3 && y < height - 2
}

/// The intensities that gradient sampling at `(x, y)` interpolates between:
/// the 4 x 4 window whose second row and column hold the pixel itself.
pub fn sample_window(image: &GrayFrame, x: u32, y: u32) -> (window: GrayFrame)
    requires
        window_in_frame(image@, x, y),
    ensures
        window@ == image@.crop(x - 1, y - 1, WINDOW_SIDE as nat, WINDOW_SIDE as nat),
        window@.wf(),
        forall|dx: int, dy: int|
            -1 <= dx <= 2 && -1 <= dy <= 2 ==> #[trigger] window@.pixel(dx + 1, dy + 1)
                == image@.pixel(x + dx, y + dy),
{
    proof {
        use_type_invariant(image);
        lemma_crop(image@, x - 1, y - 1, WINDOW_SIDE as nat, WINDOW_SIDE as nat);
    }
    image.crop(x - 1, y - 1, WINDOW_SIDE, WINDOW_SIDE)
}

/// A pixel that `inbound` accepts with a radius of two or more has its
/// sampling window inside the frame.
pub proof fn lemma_inbound_guards_window(frame: FrameView, x: u32, y: u32, radius: u32)
    requires
        radius >= 2,
        inside_margin(frame, x, y, radius),
    ensures
        window_in_frame(frame, x, y),
{
}

} // verus!
