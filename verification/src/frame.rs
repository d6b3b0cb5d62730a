use vstd::prelude::*;
use crate::error::RenderError;

verus! {

/// One decoded picture: a grid of samples, `height` rows of `width` pixels of
/// `channels` samples each, held in an `ndarray` array of three axes.
#[verifier::external_body]
#[derive(Debug)]
pub struct Frame {
    pixels: ndarray::Array3<u8>,
}

/// The lengths of the three axes of the array in `frame`: rows, columns and
/// channels.
pub uninterp spec fn frame_shape(frame: Frame) -> (nat, nat, nat);

/// The samples of the array in `frame`, row after row, within a row pixel
/// after pixel, within a pixel channel after channel.
pub uninterp spec fn frame_samples(frame: Frame) -> Seq<u8>;

/// What a frame holds.
pub struct FrameView {
    pub height: nat,
    pub width: nat,
    pub channels: nat,
    pub samples: Seq<u8>,
}

impl FrameView {
    /// The sample in row `y`, column `x`, channel `c`.
    pub open spec fn at(self, y: int, x: int, c: int) -> u8 {
        self.samples[(y * self.width + x) * self.channels + c]
    }

    /// True when row `y`, column `x`, channel `c` lies in the frame.
    pub open spec fn contains(self, y: int, x: int, c: int) -> bool {
        0 <= y < self.height && 0 <= x < self.width && 0 <= c < self.channels
    }
}

impl View for Frame {
    type V = FrameView;

    open spec fn view(&self) -> FrameView {
        FrameView {
            height: frame_shape(*self).0,
            width: frame_shape(*self).1,
            channels: frame_shape(*self).2,
            samples: frame_samples(*self),
        }
    }
}

/// An axis length as it counts towards the size limit of an array: axes of
/// length zero are left out of the product.
pub open spec fn counted(n: int) -> int {
    if n == 0 {
        1
    } else {
        n
    }
}

/// True when `len` samples fill a frame of the given extents exactly, and the
/// extents are within what an array can have.
pub open spec fn fills(height: int, width: int, channels: int, len: int) -> bool {
    &&& counted(height) * counted(width) * counted(channels) <= isize::MAX
    &&& height * width * channels == len
}

/// `Array3::from_shape_vec` with the shape `(height, width, channels)` in its
/// default, row-major order. It succeeds when the vector has one element for
/// each index and the product of the axis lengths that are not zero is at
/// most `isize::MAX`; the array then has that shape and holds the vector's
/// elements in their order.
#[verifier::external_body]
fn array_from_vec(height: usize, width: usize, channels: usize, samples: Vec<u8>) -> (r: Option<
    Frame,
>)
    ensures
        r is Some <==> fills(height as int, width as int, channels as int, samples@.len() as int),
        r is Some ==> frame_shape(r->Some_0) == (height as nat, width as nat, channels as nat),
        r is Some ==> frame_samples(r->Some_0) == samples@,
{
    match ndarray::Array3::from_shape_vec((height, width, channels), samples) {
        Ok(pixels) => Some(Frame { pixels }),
        Err(_) => None,
    }
}

/// `dim` on the array: the lengths of its three axes.
#[verifier::external_body]
fn array_dim(frame: &Frame) -> (shape: (usize, usize, usize))
    ensures
        shape.0 == frame_shape(*frame).0,
        shape.1 == frame_shape(*frame).1,
        shape.2 == frame_shape(*frame).2,
{
    frame.pixels.dim()
}

/// Indexing the array with `[row, col, channel]`, which panics outside the
/// array's extents and gives the element at that index within them.
#[verifier::external_body]
fn array_index(frame: &Frame, row: usize, col: usize, channel: usize) -> (value: u8)
    requires
        row < frame_shape(*frame).0,
        col < frame_shape(*frame).1,
        channel < frame_shape(*frame).2,
    ensures
        value == frame_samples(*frame)[(row * frame_shape(*frame).1 + col) * frame_shape(
            *frame,
        ).2 + channel],
{
    frame.pixels[[row, col, channel]]
}

impl Frame {
    /// Makes a frame of the given extents from its samples in row-major order.
    /// The samples must fill the frame exactly.
    pub fn new(height: usize, width: usize, channels: usize, samples: Vec<u8>) -> (r: Result<
        Frame,
        RenderError,
    >)
        ensures
            fills(height as int, width as int, channels as int, samples@.len() as int) ==> r is Ok
                && r->Ok_0@ == (FrameView {
                height: height as nat,
                width: width as nat,
                channels: channels as nat,
                samples: samples@,
            }),
            !fills(height as int, width as int, channels as int, samples@.len() as int) ==> r
                is Err && r->Err_0 == RenderError::InvalidInput,
    {
        match array_from_vec(height, width, channels, samples) {
            Some(frame) => Ok(frame),
            None => Err(RenderError::InvalidInput),
        }
    }

    /// The number of pixel rows.
    pub fn height(&self) -> (n: usize)
        ensures
            n == self@.height,
    {
        array_dim(self).0
    }

    /// The number of pixels in a row.
    pub fn width(&self) -> (n: usize)
        ensures
            n == self@.width,
    {
        array_dim(self).1
    }

    /// The number of samples in a pixel.
    pub fn channels(&self) -> (n: usize)
        ensures
            n == self@.channels,
    {
        array_dim(self).2
    }

    /// The sample in row `y`, column `x`, channel `c`, if the frame has one there.
    pub fn sample(&self, y: usize, x: usize, c: usize) -> (r: Option<u8>)
        ensures
            self@.contains(y as int, x as int, c as int) ==> r == Some(
                self@.at(y as int, x as int, c as int),
            ),
            !self@.contains(y as int, x as int, c as int) ==> r is None,
    {
        let (height, width, channels) = array_dim(self);
        if y < height && x < width && c < channels {
            Some(array_index(self, y, x, c))
        } else {
            None
        }
    }
}

} // verus!
