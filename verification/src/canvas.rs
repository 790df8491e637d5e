//! The canvas: an owned pixel buffer addressed by centered coordinates.
//! `x` grows rightward and `y` grows upward, so the buffer row index is
//! inverted (`row = height/2 - y - 1`) and both axes are shifted by half
//! the extent.

use vstd::prelude::*;

verus! {

/// A pixel buffer of `width * height` packed colors, row-major from the
/// top-left corner.
pub struct Canvas {
    pub buffer: Vec<u32>,
    pub width: u32,
    pub height: u32,
}

impl Canvas {
    /// A well-formed canvas: bounded extents and a buffer of exactly
    /// `width * height` pixels.
    pub open spec fn wf(self) -> bool {
        &&& self.width <= 32768
        &&& self.height <= 32768
        &&& self.buffer@.len() == (self.width as int) * (self.height as int)
    }

    /// The buffer index of the centered coordinate `(x, y)`.
    pub open spec fn pixel_index(self, x: int, y: int) -> int {
        (self.width as int) * ((self.height as int) / 2 - y - 1) + ((self.width as int) / 2 + x)
    }

    /// A black canvas of the given extent.
    pub fn new(width: u32, height: u32) -> (r: Canvas)
        requires
            width <= 32768,
            height <= 32768,
        ensures
            r.wf(),
            r.width == width,
            r.height == height,
            forall|i: int| 0 <= i < r.buffer@.len() ==> r.buffer@[i] == 0,
    {
        proof {
            assert((width as int) * (height as int) <= 0x4000_0000) by (nonlinear_arith)
                requires
                    width <= 32768,
                    height <= 32768,
            ;
            assert(0 <= (width as int) * (height as int)) by (nonlinear_arith);
        }
        let size: usize = (width as usize) * (height as usize);
        let mut buffer: Vec<u32> = Vec::new();
        let mut i: usize = 0;
        while i < size
            invariant
                i <= size,
                buffer@.len() == i,
                forall|j: int| 0 <= j < i ==> buffer@[j] == 0,
            decreases size - i,
        {
            buffer.push(0);
            i = i + 1;
        }
        Canvas { buffer, width, height }
    }

    /// Write one pixel at the centered coordinate `(x, y)`.  The
    /// coordinate must land inside the canvas.
    pub fn put_pixel(&mut self, x: i32, y: i32, color: u32)
        requires
            old(self).wf(),
            0 <= (old(self).width as int) / 2 + x < old(self).width,
            0 <= (old(self).height as int) / 2 - y - 1 < old(self).height,
        ensures
            final(self).wf(),
            final(self).width == old(self).width,
            final(self).height == old(self).height,
            final(self).buffer@ == old(self).buffer@.update(
                old(self).pixel_index(x as int, y as int),
                color,
            ),
    {
        let col: i64 = (self.width / 2) as i64 + x as i64;
        let row: i64 = (self.height / 2) as i64 - y as i64 - 1;
        proof {
            assert(0 <= (self.width as int) * row <= (self.width as int) * ((self.height as int)
                - 1)) by (nonlinear_arith)
                requires
                    0 <= row < self.height as int,
                    0 <= self.width,
            ;
            assert((self.width as int) * ((self.height as int) - 1) + (self.width as int) == (
            self.width as int) * (self.height as int)) by (nonlinear_arith);
            assert((self.width as int) * (self.height as int) <= 0x4000_0000) by (nonlinear_arith)
                requires
                    self.width <= 32768,
                    self.height <= 32768,
            ;
        }
        let index: usize = (self.width as i64 * row + col) as usize;
        self.buffer.set(index, color);
    }
}

}
