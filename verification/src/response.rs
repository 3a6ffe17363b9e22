//! Response maps: dense images of one scalar per pixel, the shape rule that
//! every response function enforces, and the 3 x 3 stencil traversal.
//!
//! The scalar type is left open. This module decides which pixels are read
//! and written and in which order; the arithmetic on the scalars is the
//! caller's.

use crate::frame::lemma_pixel_index;
use crate::score::{is_positive, INFINITY_BITS};
use vstd::prelude::*;

verus! {

/// Width and height of an image, in pixels.
#[derive(Clone, Copy, Debug, PartialEq, Eq, Structural)]
pub struct ImageSize {
    pub width: usize,
    pub height: usize,
}

/// Why a response function refused its arguments.
#[derive(Clone, Copy, Debug, PartialEq, Eq, Structural)]
pub enum ResponseError {
    /// Source and destination differ in shape; both shapes are reported.
    ShapeMismatch { src_cols: usize, src_rows: usize, dst_cols: usize, dst_rows: usize },
    /// A blur width that is not a positive number.
    InvalidParameter,
}

/// What an image is: its dimensions and its values in row-major order.
pub struct ImageView<T> {
    pub width: nat,
    pub height: nat,
    pub pixels: Seq<T>,
}

impl<T> ImageView<T> {
    /// The buffer holds exactly one value per pixel.
    pub open spec fn wf(self) -> bool {
        self.pixels.len() == self.width * self.height
    }

    /// Whether `(x, y)` names a pixel of the image.
    pub open spec fn contains(self, x: int, y: int) -> bool {
        0 <= x < self.width && 0 <= y < self.height
    }

    /// Whether `(x, y)` is a pixel off the outermost ring, so that all eight
    /// of its neighbours exist.
    pub open spec fn is_interior(self, x: int, y: int) -> bool {
        1 <= x && x + 1 < self.width && 1 <= y && y + 1 < self.height
    }

    /// The value at column `x`, row `y`.
    pub open spec fn pixel(self, x: int, y: int) -> T
        recommends
            self.contains(x, y),
    {
        self.pixels[y * self.width + x]
    }

    /// The pixel `(x, y)` with its eight neighbours.
    pub open spec fn neighborhood(self, x: int, y: int) -> Neighborhood<T>
        recommends
            self.is_interior(x, y),
    {
        Neighborhood {
            north_west: self.pixel(x - 1, y - 1),
            north: self.pixel(x, y - 1),
            north_east: self.pixel(x + 1, y - 1),
            west: self.pixel(x - 1, y),
            center: self.pixel(x, y),
            east: self.pixel(x + 1, y),
            south_west: self.pixel(x - 1, y + 1),
            south: self.pixel(x, y + 1),
            south_east: self.pixel(x + 1, y + 1),
        }
    }
}

/// A pixel and its eight neighbours, named by compass direction with north
/// towards row zero.
#[derive(Debug)]
pub struct Neighborhood<T> {
    pub north_west: T,
    pub north: T,
    pub north_east: T,
    pub west: T,
    pub center: T,
    pub east: T,
    pub south_west: T,
    pub south: T,
    pub south_east: T,
}

/// What the shape rule answers for a source and a destination shape.
pub open spec fn shape_verdict(src: ImageSize, dst: ImageSize) -> Result<(), ResponseError> {
    if src == dst {
        Ok(())
    } else {
        Err(
            ResponseError::ShapeMismatch {
                src_cols: src.width,
                src_rows: src.height,
                dst_cols: dst.width,
                dst_rows: dst.height,
            },
        )
    }
}

/// The shape rule of every response function: source and destination must
/// have the same shape, and a mismatch is reported with both.
pub fn check_same_size(src: ImageSize, dst: ImageSize) -> (verdict: Result<(), ResponseError>)
    ensures
        verdict == shape_verdict(src, dst),
{
    if src.width == dst.width && src.height == dst.height {
        Ok(())
    } else {
        Err(
            ResponseError::ShapeMismatch {
                src_cols: src.width,
                src_rows: src.height,
                dst_cols: dst.width,
                dst_rows: dst.height,
            },
        )
    }
}

/// Accepts a blur width, given as the bit pattern of a single-precision
/// number, exactly when it encodes a number greater than zero.
pub fn validate_sigma(sigma_bits: u32) -> (verdict: Result<(), ResponseError>)
    ensures
        is_positive(sigma_bits) ==> verdict == Ok::<(), ResponseError>(()),
        !is_positive(sigma_bits) ==> verdict == Err::<(), ResponseError>(
            ResponseError::InvalidParameter,
        ),
{
    if 0 < sigma_bits && sigma_bits <= INFINITY_BITS {
        Ok(())
    } else {
        Err(ResponseError::InvalidParameter)
    }
}

/// The least odd number that is no less than `raw`.
pub open spec fn next_odd(raw: int) -> int {
    if raw % 2 == 0 {
        raw + 1
    } else {
        raw
    }
}

/// Turns the whole part of `2 * 4 * sigma + 1` into a kernel size: sizes
/// are odd, so an even value grows by one.
pub fn odd_kernel_size(raw: usize) -> (size: usize)
    ensures
        size == next_odd(raw as int),
        size % 2 == 1,
{
    if raw % 2 == 0 {
        assert(usize::MAX % 2 == 1);
        raw + 1
    } else {
        raw
    }
}

/// An owned, dense image of one value per pixel in row-major order.
pub struct Image<T> {
    size: ImageSize,
    data: Vec<T>,
}

impl<T> View for Image<T> {
    type V = ImageView<T>;

    closed spec fn view(&self) -> ImageView<T> {
        ImageView {
            width: self.size.width as nat,
            height: self.size.height as nat,
            pixels: self.data@,
        }
    }
}

impl<T> Image<T> {
    /// Every image is well formed.
    #[verifier::type_invariant]
    pub open spec fn inv(&self) -> bool {
        self@.wf()
    }

    /// Builds an image from its shape and row-major values; `None` when the
    /// buffer does not hold exactly one value per pixel.
    pub fn new(size: ImageSize, data: Vec<T>) -> (image: Option<Image<T>>)
        ensures
            match image {
                Some(made) => made@ == (ImageView {
                    width: size.width as nat,
                    height: size.height as nat,
                    pixels: data@,
                }) && made@.wf(),
                None => data@.len() != size.width * size.height,
            },
    {
        match size.width.checked_mul(size.height) {
            Some(needed) => {
                if data.len() == needed {
                    Some(Image { size, data })
                } else {
                    None
                }
            },
            None => {
                assert(data@.len() == data.len());
                None
            },
        }
    }

    /// The shape of the image.
    pub fn size(&self) -> (size: ImageSize)
        ensures
            size.width == self@.width,
            size.height == self@.height,
    {
        self.size
    }

    /// The values in row-major order.
    pub fn as_raw(&self) -> (data: &Vec<T>)
        ensures
            data@ == self@.pixels,
    {
        &self.data
    }

    /// Gives up the image for its values in row-major order.
    pub fn into_raw(self) -> (data: Vec<T>)
        ensures
            data@ == self@.pixels,
    {
        self.data
    }
}

impl<T: Copy> Image<T> {
    /// An image of the given shape with every pixel set to `value`; `None`
    /// when the pixel count does not fit the machine word.
    pub fn from_size_val(size: ImageSize, value: T) -> (image: Option<Image<T>>)
        ensures
            match image {
                Some(made) => {
                    &&& made@.wf()
                    &&& made@.width == size.width
                    &&& made@.height == size.height
                    &&& forall|k: int| 0 <= k < made@.pixels.len() ==> made@.pixels[k] == value
                },
                None => size.width * size.height > usize::MAX,
            },
    {
        match size.width.checked_mul(size.height) {
            Some(count) => {
                let mut data: Vec<T> = Vec::new();
                while data.len() < count
                    invariant
                        data@.len() <= count,
                        forall|k: int| 0 <= k < data@.len() ==> data@[k] == value,
                    decreases count - data@.len(),
                {
                    data.push(value);
                }
                Some(Image { size, data })
            },
            None => None,
        }
    }

    /// The value at column `x`, row `y`.
    pub fn get_pixel(&self, x: usize, y: usize) -> (value: T)
        requires
            self@.contains(x as int, y as int),
        ensures
            value == self@.pixel(x as int, y as int),
    {
        proof {
            use_type_invariant(self);
            lemma_pixel_index(self.size.width as int, self.size.height as int, x as int, y as int);
            assert(self.data@.len() == self.data.len());
        }
        self.data[y * self.size.width + x]
    }

    /// Reads the pixel `(x, y)` and its eight neighbours.
    pub fn neighborhood(&self, x: usize, y: usize) -> (around: Neighborhood<T>)
        requires
            self@.is_interior(x as int, y as int),
        ensures
            around == self@.neighborhood(x as int, y as int),
    {
        Neighborhood {
            north_west: self.get_pixel(x - 1, y - 1),
            north: self.get_pixel(x, y - 1),
            north_east: self.get_pixel(x + 1, y - 1),
            west: self.get_pixel(x - 1, y),
            center: self.get_pixel(x, y),
            east: self.get_pixel(x + 1, y),
            south_west: self.get_pixel(x - 1, y + 1),
            south: self.get_pixel(x, y + 1),
            south_east: self.get_pixel(x + 1, y + 1),
        }
    }

    /// Overwrites the value at column `x`, row `y`; every other pixel keeps
    /// its value.
    pub fn put_pixel(&mut self, x: usize, y: usize, value: T)
        requires
            old(self)@.contains(x as int, y as int),
        ensures
            final(self)@.width == old(self)@.width,
            final(self)@.height == old(self)@.height,
            final(self)@.wf(),
            final(self)@.pixel(x as int, y as int) == value,
            forall|px: int, py: int|
                old(self)@.contains(px, py) && (px != x || py != y)
                    ==> #[trigger] final(self)@.pixel(px, py) == old(self)@.pixel(px, py),
    {
        proof {
            use_type_invariant(&*self);
            lemma_pixel_index(self.size.width as int, self.size.height as int, x as int, y as int);
            assert(self.data@.len() == self.data.len());
        }
        let ghost before = self@;
        let at: usize = y * self.size.width + x;
        self.data[at] = value;
        proof {
            assert forall|px: int, py: int|
                before.contains(px, py) && (px != x || py != y) implies #[trigger] self@.pixel(
                px,
                py,
            ) == before.pixel(px, py) by {
                lemma_pixel_index(before.width as int, before.height as int, px, py);
            }
        }
    }
}

/// `after` is what `before` becomes when every interior pixel is given a
/// result of `response` on its neighbourhood in `src`: the three images have
/// one shape, the outermost ring of `after` is that of `before`, and each
/// interior value is one that `response` can return for the nine source
/// pixels around it.
pub open spec fn is_interior_response<T, F: Fn(Neighborhood<T>) -> T>(
    response: F,
    src: ImageView<T>,
    before: ImageView<T>,
    after: ImageView<T>,
) -> bool {
    &&& after.wf()
    &&& src.width == before.width == after.width
    &&& src.height == before.height == after.height
    &&& forall|x: int, y: int|
        after.contains(x, y) ==> if src.is_interior(x, y) {
            call_ensures(response, (src.neighborhood(x, y),), #[trigger] after.pixel(x, y))
        } else {
            after.pixel(x, y) == before.pixel(x, y)
        }
}

/// `response` is a function of its argument: it has one result per
/// neighbourhood.
pub open spec fn single_valued<T, F: Fn(Neighborhood<T>) -> T>(response: F) -> bool {
    forall|around: Neighborhood<T>, one: T, other: T|
        call_ensures(response, (around,), one) && call_ensures(response, (around,), other) ==> one
            == other
}

/// Writes a response to every interior pixel of `dst`, computed by
/// `response` from the pixel's 3 x 3 neighbourhood in `src`.
///
/// The outermost ring of `dst` keeps the values it came with. Each interior
/// value depends on nine source pixels and on nothing else. Images of
/// different shape are refused, and `dst` is then left as it was.
pub fn interior_response<T: Copy, F: Fn(Neighborhood<T>) -> T>(
    src: &Image<T>,
    dst: &mut Image<T>,
    response: F,
) -> (outcome: Result<(), ResponseError>)
    requires
        forall|around: Neighborhood<T>| call_requires(response, (around,)),
    ensures
        final(dst)@.wf(),
        final(dst)@.width == old(dst)@.width,
        final(dst)@.height == old(dst)@.height,
        outcome == shape_verdict(
            ImageSize { width: src@.width as usize, height: src@.height as usize },
            ImageSize { width: old(dst)@.width as usize, height: old(dst)@.height as usize },
        ),
        outcome is Err ==> final(dst)@ == old(dst)@,
        outcome is Ok ==> is_interior_response(response, src@, old(dst)@, final(dst)@),
{
    proof {
        use_type_invariant(src);
        use_type_invariant(&*dst);
    }
    let size: ImageSize = src.size();
    match check_same_size(size, dst.size()) {
        Err(mismatch) => { return Err(mismatch); },
        Ok(()) => {},
    }
    if size.width < 3 || size.height < 3 {
        return Ok(());
    }
    let ghost before = dst@;
    let mut y: usize = 1;
    while y + 1 < size.height
        invariant
            forall|around: Neighborhood<T>| call_requires(response, (around,)),
            src@.wf(),
            dst@.wf(),
            size.width == src@.width,
            size.height == src@.height,
            dst@.width == before.width == src@.width,
            dst@.height == before.height == src@.height,
            size.width >= 3,
            size.height >= 3,
            1 <= y < size.height,
            forall|px: int, py: int|
                before.contains(px, py) ==> if src@.is_interior(px, py) && py < y {
                    call_ensures(response, (src@.neighborhood(px, py),), #[trigger] dst@.pixel(px, py))
                } else {
                    dst@.pixel(px, py) == before.pixel(px, py)
                },
        decreases size.height - y,
    {
        let mut x: usize = 1;
        while x + 1 < size.width
            invariant
                forall|around: Neighborhood<T>| call_requires(response, (around,)),
                src@.wf(),
                dst@.wf(),
                size.width == src@.width,
                size.height == src@.height,
                dst@.width == before.width == src@.width,
                dst@.height == before.height == src@.height,
                size.width >= 3,
                size.height >= 3,
                1 <= y,
                y + 1 < size.height,
                1 <= x < size.width,
                forall|px: int, py: int|
                    before.contains(px, py) ==> if src@.is_interior(px, py) && (py < y || (py == y
                        && px < x)) {
                        call_ensures(
                            response,
                            (src@.neighborhood(px, py),),
                            #[trigger] dst@.pixel(px, py),
                        )
                    } else {
                        dst@.pixel(px, py) == before.pixel(px, py)
                    },
            decreases size.width - x,
        {
            let around: Neighborhood<T> = src.neighborhood(x, y);
            let value: T = response(around);
            dst.put_pixel(x, y, value);
            x += 1;
        }
        y += 1;
    }
    Ok(())
}

/// `after` holds at every pixel a result of `combine` on the values that
/// `first` and `second` hold there; the three images have one shape.
pub open spec fn is_pointwise_response<T, F: Fn(T, T) -> T>(
    combine: F,
    first: ImageView<T>,
    second: ImageView<T>,
    after: ImageView<T>,
) -> bool {
    &&& after.wf()
    &&& first.width == second.width == after.width
    &&& first.height == second.height == after.height
    &&& forall|k: int|
        0 <= k < after.pixels.len() ==> call_ensures(
            combine,
            (first.pixels[k], second.pixels[k]),
            #[trigger] after.pixels[k],
        )
}

/// Writes to every pixel of `dst` what `combine` makes of the two values
/// that `first` and `second` hold at that pixel.
///
/// All three images must have one shape. The first mismatch found, `first`
/// against `dst` and then `second` against `dst`, is reported, and `dst` is
/// then left as it was.
pub fn pointwise_response<T: Copy, F: Fn(T, T) -> T>(
    first: &Image<T>,
    second: &Image<T>,
    dst: &mut Image<T>,
    combine: F,
) -> (outcome: Result<(), ResponseError>)
    requires
        forall|a: T, b: T| call_requires(combine, (a, b)),
    ensures
        final(dst)@.wf(),
        final(dst)@.width == old(dst)@.width,
        final(dst)@.height == old(dst)@.height,
        outcome == pointwise_verdict(first@, second@, old(dst)@),
        outcome is Err ==> final(dst)@ == old(dst)@,
        outcome is Ok ==> is_pointwise_response(combine, first@, second@, final(dst)@),
{
    proof {
        use_type_invariant(first);
        use_type_invariant(second);
        use_type_invariant(&*dst);
    }
    match check_same_size(first.size(), dst.size()) {
        Err(mismatch) => { return Err(mismatch); },
        Ok(()) => {},
    }
    match check_same_size(second.size(), dst.size()) {
        Err(mismatch) => { return Err(mismatch); },
        Ok(()) => {},
    }
    let count: usize = dst.data.len();
    let mut at: usize = 0;
    while at < count
        invariant
            forall|a: T, b: T| call_requires(combine, (a, b)),
            dst@.wf(),
            dst@.width == old(dst)@.width,
            dst@.height == old(dst)@.height,
            first@.pixels.len() == count,
            second@.pixels.len() == count,
            dst@.pixels.len() == count,
            0 <= at <= count,
            forall|k: int|
                0 <= k < at ==> call_ensures(
                    combine,
                    (first@.pixels[k], second@.pixels[k]),
                    #[trigger] dst@.pixels[k],
                ),
        decreases count - at,
    {
        let value: T = combine(first.data[at], second.data[at]);
        dst.data[at] = value;
        at += 1;
    }
    Ok(())
}

/// What the shape rule answers for a pointwise response.
pub open spec fn pointwise_verdict<T>(
    first: ImageView<T>,
    second: ImageView<T>,
    dst: ImageView<T>,
) -> Result<(), ResponseError> {
    let first_size = ImageSize { width: first.width as usize, height: first.height as usize };
    let second_size = ImageSize { width: second.width as usize, height: second.height as usize };
    let dst_size = ImageSize { width: dst.width as usize, height: dst.height as usize };
    if first_size != dst_size {
        shape_verdict(first_size, dst_size)
    } else {
        shape_verdict(second_size, dst_size)
    }
}

/// The nine source pixels behind an interior response are the pixel's own
/// position and the eight around it: all of them pixels of the image, none
/// further than one row and one column away.
pub proof fn lemma_neighborhood_is_local<T>(image: ImageView<T>, x: int, y: int)
    requires
        image.wf(),
        image.is_interior(x, y),
    ensures
        forall|dx: int, dy: int|
            -1 <= dx <= 1 && -1 <= dy <= 1 ==> #[trigger] image.contains(x + dx, y + dy),
{
}

/// Two sources that agree on the 3 x 3 window around an interior pixel give
/// that pixel the same neighbourhood, whatever they hold elsewhere.
pub proof fn lemma_neighborhood_ignores_the_rest<T>(
    first: ImageView<T>,
    second: ImageView<T>,
    x: int,
    y: int,
)
    requires
        first.width == second.width,
        first.height == second.height,
        first.is_interior(x, y),
        forall|dx: int, dy: int|
            -1 <= dx <= 1 && -1 <= dy <= 1 ==> #[trigger] first.pixel(x + dx, y + dy)
                == second.pixel(x + dx, y + dy),
    ensures
        first.neighborhood(x, y) == second.neighborhood(x, y),
{
    // One instance of the agreement per pixel of the window.
    assert(first.pixel(x + (-1), y + (-1)) == second.pixel(x + (-1), y + (-1)));
    assert(first.pixel(x + 0, y + (-1)) == second.pixel(x + 0, y + (-1)));
    assert(first.pixel(x + 1, y + (-1)) == second.pixel(x + 1, y + (-1)));
    assert(first.pixel(x + (-1), y + 0) == second.pixel(x + (-1), y + 0));
    assert(first.pixel(x + 0, y + 0) == second.pixel(x + 0, y + 0));
    assert(first.pixel(x + 1, y + 0) == second.pixel(x + 1, y + 0));
    assert(first.pixel(x + (-1), y + 1) == second.pixel(x + (-1), y + 1));
    assert(first.pixel(x + 0, y + 1) == second.pixel(x + 0, y + 1));
    assert(first.pixel(x + 1, y + 1) == second.pixel(x + 1, y + 1));
}

/// A response that is a function of its argument reads nothing but the
/// window: where two sources agree on the 3 x 3 window around an interior
/// pixel, their response maps agree at that pixel, whatever the sources hold
/// elsewhere and whatever the destinations held before.
pub proof fn lemma_interior_response_is_local<T, F: Fn(Neighborhood<T>) -> T>(
    response: F,
    first_src: ImageView<T>,
    first_before: ImageView<T>,
    first_after: ImageView<T>,
    second_src: ImageView<T>,
    second_before: ImageView<T>,
    second_after: ImageView<T>,
    x: int,
    y: int,
)
    requires
        single_valued(response),
        is_interior_response(response, first_src, first_before, first_after),
        is_interior_response(response, second_src, second_before, second_after),
        first_src.width == second_src.width,
        first_src.height == second_src.height,
        first_src.is_interior(x, y),
        forall|dx: int, dy: int|
            -1 <= dx <= 1 && -1 <= dy <= 1 ==> #[trigger] first_src.pixel(x + dx, y + dy)
                == second_src.pixel(x + dx, y + dy),
    ensures
        first_after.pixel(x, y) == second_after.pixel(x, y),
{
    lemma_neighborhood_ignores_the_rest(first_src, second_src, x, y);
    assert(first_after.contains(x, y) && second_after.contains(x, y));
}

/// A response that is a function of its argument gives the same map every
/// time: two runs on one source, from destinations that held the same
/// values, end with the same values.
pub proof fn lemma_interior_response_is_repeatable<T, F: Fn(Neighborhood<T>) -> T>(
    response: F,
    src: ImageView<T>,
    before: ImageView<T>,
    first_after: ImageView<T>,
    second_after: ImageView<T>,
)
    requires
        single_valued(response),
        is_interior_response(response, src, before, first_after),
        is_interior_response(response, src, before, second_after),
    ensures
        first_after == second_after,
{
    assert forall|k: int| 0 <= k < first_after.pixels.len() implies first_after.pixels[k]
        == second_after.pixels[k] by {
        lemma_pixel_position(src.width as int, src.height as int, k);
        let x = k % (src.width as int);
        let y = k / (src.width as int);
        assert(first_after.pixel(x, y) == second_after.pixel(x, y));
    }
    assert(first_after.pixels =~= second_after.pixels);
}

/// A combination that is a function of its arguments gives the same map
/// every time: two pointwise responses to the same pair of images are equal.
pub proof fn lemma_pointwise_response_is_repeatable<T, F: Fn(T, T) -> T>(
    combine: F,
    first: ImageView<T>,
    second: ImageView<T>,
    one_after: ImageView<T>,
    other_after: ImageView<T>,
)
    requires
        forall|a: T, b: T, one: T, other: T|
            call_ensures(combine, (a, b), one) && call_ensures(combine, (a, b), other) ==> one
                == other,
        is_pointwise_response(combine, first, second, one_after),
        is_pointwise_response(combine, first, second, other_after),
    ensures
        one_after == other_after,
{
    assert(one_after.pixels =~= other_after.pixels);
}

/// Every index of a row-major buffer is the index of one pixel.
proof fn lemma_pixel_position(width: int, height: int, k: int)
    requires
        0 <= width,
        0 <= height,
        0 <= k < width * height,
    ensures
        0 <= k % width < width,
        0 <= k / width < height,
        (k / width) * width + k % width == k,
{
    assert(width > 0) by (nonlinear_arith)
        requires
            0 <= width,
            0 <= k < width * height,
    ;
    vstd::arithmetic::div_mod::lemma_fundamental_div_mod(k, width);
    vstd::arithmetic::div_mod::lemma_div_pos_is_pos(k, width);
    assert(k / width < height) by (nonlinear_arith)
        requires
            width > 0,
            0 <= k < width * height,
            k == width * (k / width) + k % width,
            0 <= k % width < width,
    ;
    assert((k / width) * width == width * (k / width)) by (nonlinear_arith);
}

} // verus!
