//! Client buffers as the commit pipeline sees them.

use vstd::prelude::*;
use crate::rect::Rect;

verus! {

/// A buffer of pixels that a client handed over. Its identity, size and kind never
/// change; whether the client has destroyed it since is kept by `LiveBuffers`.
#[derive(Copy, Clone, Debug, PartialEq, Eq, Structural)]
pub struct WlBuffer {
    pub id: u32,
    /// The pixels of the buffer, with the first corner at the origin.
    pub rect: Rect,
    /// Whether the pixels live in memory of the graphics device.
    pub dmabuf: bool,
}

impl WlBuffer {
    pub open spec fn wf(self) -> bool {
        self.rect.wf() && self.rect.x1 == 0 && self.rect.y1 == 0
    }

    /// A buffer of the given size, unless a size is negative.
    pub fn new(id: u32, width: i32, height: i32, dmabuf: bool) -> (r: Option<WlBuffer>)
        ensures
            r.is_some() <==> (width >= 0 && height >= 0),
            r.is_some() ==> r.unwrap().wf() && r.unwrap().id == id && r.unwrap().dmabuf == dmabuf
                && r.unwrap().rect.x2 == width && r.unwrap().rect.y2 == height,
    {
        match Rect::new_sized(0, 0, width, height) {
            Some(rect) => Some(WlBuffer { id, rect, dmabuf }),
            None => None,
        }
    }
}

} // verus!
