//! Render orchestration: image dimensions and the tiling of the image into
//! blocks of pixels.

use vstd::prelude::*;

verus! {

/// The output resolution a render is asked for.
#[derive(Debug, Clone, Copy, PartialEq, Eq, Structural)]
pub struct RenderSettings {
    pub resolution_width: i32,
    pub resolution_height: i32,
}

/// One rectangular block of pixels: its top-left corner and its extent.
#[derive(Debug, Clone, Copy, PartialEq, Eq, Structural)]
pub struct ImageBlock {
    pub block_width: u32,
    pub block_height: u32,
    pub pixel_x: u32,
    pub pixel_y: u32,
}

impl ImageBlock {
    pub fn start_x(&self) -> (r: u32)
        ensures
            r == self.pixel_x,
    {
        self.pixel_x
    }

    pub fn start_y(&self) -> (r: u32)
        ensures
            r == self.pixel_y,
    {
        self.pixel_y
    }

    pub fn end_x(&self) -> (r: u32)
        requires
            self.pixel_x + self.block_width <= u32::MAX,
        ensures
            r == self.pixel_x + self.block_width,
    {
        self.pixel_x + self.block_width
    }

    pub fn end_y(&self) -> (r: u32)
        requires
            self.pixel_y + self.block_height <= u32::MAX,
        ensures
            r == self.pixel_y + self.block_height,
    {
        self.pixel_y + self.block_height
    }
}

/// Walks an image in blocks of at most `block_width` by `block_height`
/// pixels, row by row, covering every pixel exactly once.
pub struct ImageBlockIterator {
    buffer_width: u32,
    buffer_height: u32,
    current_pixel_x: u32,
    current_pixel_y: u32,
    block_width: u32,
    block_height: u32,
}

impl ImageBlockIterator {
    pub closed spec fn spec_buffer_width(&self) -> u32 {
        self.buffer_width
    }

    pub closed spec fn spec_buffer_height(&self) -> u32 {
        self.buffer_height
    }

    pub closed spec fn spec_x(&self) -> u32 {
        self.current_pixel_x
    }

    pub closed spec fn spec_y(&self) -> u32 {
        self.current_pixel_y
    }

    pub closed spec fn spec_block_width(&self) -> u32 {
        self.block_width
    }

    pub closed spec fn spec_block_height(&self) -> u32 {
        self.block_height
    }

    pub open spec fn wf(&self) -> bool {
        &&& self.spec_block_width() >= 1
        &&& self.spec_block_height() >= 1
        &&& self.spec_x() <= self.spec_buffer_width()
        &&& self.spec_y() <= self.spec_buffer_height()
    }

    pub fn new(buffer_width: u32, buffer_height: u32, block_width: u32, block_height: u32) -> (r:
        ImageBlockIterator)
        requires
            block_width >= 1,
            block_height >= 1,
        ensures
            r.spec_buffer_width() == buffer_width,
            r.spec_buffer_height() == buffer_height,
            r.spec_block_width() == block_width,
            r.spec_block_height() == block_height,
            r.spec_x() == 0,
            r.spec_y() == 0,
            r.wf(),
    {
        ImageBlockIterator {
            buffer_width,
            buffer_height,
            current_pixel_x: 0,
            current_pixel_y: 0,
            block_width,
            block_height,
        }
    }

    /// The next block, or `None` once every pixel has been handed out.
    /// Each returned block starts at the cursor, is clipped to the image,
    /// and the cursor then moves past it: left to right, then down.
    pub fn next_block(&mut self) -> (r: Option<ImageBlock>)
        requires
            old(self).wf(),
        ensures
            final(self).spec_buffer_width() == old(self).spec_buffer_width(),
            final(self).spec_buffer_height() == old(self).spec_buffer_height(),
            final(self).spec_block_width() == old(self).spec_block_width(),
            final(self).spec_block_height() == old(self).spec_block_height(),
            final(self).wf(),
            r is None <==> (old(self).spec_y() >= old(self).spec_buffer_height()
                || old(self).spec_x() >= old(self).spec_buffer_width()),
            r matches Some(block) ==> {
                &&& block.pixel_x == old(self).spec_x()
                &&& block.pixel_y == old(self).spec_y()
                &&& block.block_width == if old(self).spec_x() + old(self).spec_block_width()
                    <= old(self).spec_buffer_width() {
                    old(self).spec_block_width() as int
                } else {
                    old(self).spec_buffer_width() - old(self).spec_x()
                }
                &&& block.block_height == if old(self).spec_y() + old(self).spec_block_height()
                    <= old(self).spec_buffer_height() {
                    old(self).spec_block_height() as int
                } else {
                    old(self).spec_buffer_height() - old(self).spec_y()
                }
                &&& block.pixel_x + block.block_width <= old(self).spec_buffer_width()
                &&& block.pixel_y + block.block_height <= old(self).spec_buffer_height()
                &&& block.block_width >= 1
                &&& block.block_height >= 1
                // the cursor steps right past the block, or to the next row
                &&& (if old(self).spec_x() + block.block_width < old(self).spec_buffer_width() {
                    final(self).spec_x() == old(self).spec_x() + block.block_width
                        && final(self).spec_y() == old(self).spec_y()
                } else {
                    final(self).spec_x() == 0 && final(self).spec_y() == old(self).spec_y()
                        + block.block_height
                })
            },
    {
        if self.current_pixel_y >= self.buffer_height || self.current_pixel_x
            >= self.buffer_width {
            return None;
        }
        let width_left = self.buffer_width - self.current_pixel_x;
        let height_left = self.buffer_height - self.current_pixel_y;
        let new_width = if width_left < self.block_width {
            width_left
        } else {
            self.block_width
        };
        let new_height = if height_left < self.block_height {
            height_left
        } else {
            self.block_height
        };
        let block = ImageBlock {
            block_width: new_width,
            block_height: new_height,
            pixel_x: self.current_pixel_x,
            pixel_y: self.current_pixel_y,
        };
        if self.current_pixel_x + new_width >= self.buffer_width {
            self.current_pixel_x = 0;
            self.current_pixel_y = self.current_pixel_y + new_height;
        } else {
            self.current_pixel_x = self.current_pixel_x + new_width;
        }
        Some(block)
    }
}

} // verus!
