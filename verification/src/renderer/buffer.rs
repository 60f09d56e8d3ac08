//! The pixels of one frame.

use vstd::prelude::*;

verus! {

/// A frame with four bytes per pixel.
#[derive(Debug)]
pub struct DisplayBuffer {
    pub width: u16,
    pub height: u16,
    pub frame: Vec<u8>,
}

/// How many bytes a frame of the given size has.
pub open spec fn frame_len(width: u16, height: u16) -> nat {
    (width as nat) * (height as nat) * 4
}

/// The bytes of a blank frame.
pub open spec fn blank(width: u16, height: u16) -> Seq<u8> {
    Seq::new(frame_len(width, height), |i: int| 0)
}

impl DisplayBuffer {
    /// Whether the frame has the bytes that its size calls for.
    pub open spec fn well_formed(self) -> bool {
        self.frame@.len() == frame_len(self.width, self.height)
    }

    /// A blank frame.
    pub fn new(width: u16, height: u16) -> (buffer: Self)
        requires
            frame_len(width, height) <= usize::MAX,
        ensures
            buffer.width == width,
            buffer.height == height,
            buffer.frame@ == blank(width, height),
            buffer.well_formed(),
    {
        assert(width * height <= 0xFFFF * 0xFFFF && 0 <= width * height) by (nonlinear_arith)
            requires
                width <= 0xFFFF,
                height <= 0xFFFF,
        ;
        let pixels: u64 = width as u64 * height as u64;
        let len: usize = (pixels * 4) as usize;
        let mut frame: Vec<u8> = Vec::new();
        frame.resize(len, 0);
        assert(frame@ =~= blank(width, height));
        DisplayBuffer { width, height, frame }
    }

    /// A blank frame of the same size.
    pub fn new_from_this(&self) -> (buffer: Self)
        requires
            self.well_formed(),
        ensures
            buffer.width == self.width,
            buffer.height == self.height,
            buffer.frame@ == blank(self.width, self.height),
            buffer.well_formed(),
    {
        assert(self.frame.len() <= usize::MAX);
        DisplayBuffer::new(self.width, self.height)
    }

    /// Pixels in a line.
    pub fn width(&self) -> (width: u16)
        ensures
            width == self.width,
    {
        self.width
    }

    /// Lines in the frame.
    pub fn height(&self) -> (height: u16)
        ensures
            height == self.height,
    {
        self.height
    }

    /// The bytes of the frame.
    pub fn into_inner(self) -> (frame: Vec<u8>)
        ensures
            frame@ == self.frame@,
    {
        self.frame
    }
}

} // verus!
