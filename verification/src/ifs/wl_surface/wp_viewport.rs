//! Viewports: which part of its buffer a surface shows, and at which size.

use vstd::prelude::*;
use crate::client::Client;
use crate::fixed::Fixed;
use crate::ifs::wl_surface::pending::{later, PendingState, SrcRect};
use crate::ifs::wl_surface::requests::{lemma_recorded_wf, recorded};

verus! {

#[derive(Copy, Clone, Debug, PartialEq, Eq, Structural)]
pub enum WpViewportError {
    /// The source rectangle has a negative corner or no positive size.
    InvalidSourceRect,
    /// The destination size is not positive.
    InvalidDestRect,
}

/// The value with which a client takes a rectangle or a size back.
pub const UNSET: i32 = -1;

/// What a request for a source rectangle asks for: nothing where all four values
/// are -1, and else the rectangle, which has to lie in the first quadrant and to
/// have a positive size.
pub open spec fn spec_source(x: Fixed, y: Fixed, width: Fixed, height: Fixed) -> Result<
    Option<SrcRect>,
    WpViewportError,
> {
    if x.raw() == -256 && y.raw() == -256 && width.raw() == -256 && height.raw() == -256 {
        Ok(None)
    } else if x.raw() < 0 || y.raw() < 0 || width.raw() <= 0 || height.raw() <= 0 {
        Err(WpViewportError::InvalidSourceRect)
    } else {
        Ok(Some(SrcRect { x, y, width, height }))
    }
}

/// What a request for a destination size asks for: nothing where both values are
/// -1, and else the size, which has to be positive.
pub open spec fn spec_destination(width: i32, height: i32) -> Result<
    Option<(i32, i32)>,
    WpViewportError,
> {
    if width == UNSET && height == UNSET {
        Ok(None)
    } else if width <= 0 || height <= 0 {
        Err(WpViewportError::InvalidDestRect)
    } else {
        Ok(Some((width, height)))
    }
}

/// The viewport object of a surface.
pub struct WpViewport;

impl WpViewport {
    /// The surface at `s` shows the given part of its buffer from the next commit
    /// on, or the whole buffer again.
    pub fn set_source(client: &mut Client, s: usize, x: Fixed, y: Fixed, width: Fixed, height: Fixed) -> (r:
        Result<(), WpViewportError>)
        requires
            old(client).wf(),
            s < old(client)@.surfaces.len(),
        ensures
            final(client).wf(),
            match spec_source(x, y, width, height) {
                Ok(src) => r.is_ok() && final(client)@ == recorded(
                    old(client)@,
                    s,
                    PendingState { src_rect: Some(src), ..old(client)@.pending[s as int] },
                ),
                Err(e) => r == Err::<(), WpViewportError>(e) && final(client)@ == old(client)@,
            },
    {
        let src = if x.0 == -256 && y.0 == -256 && width.0 == -256 && height.0 == -256 {
            None
        } else if x.0 < 0 || y.0 < 0 || width.0 <= 0 || height.0 <= 0 {
            return Err(WpViewportError::InvalidSourceRect);
        } else {
            Some(SrcRect { x, y, width, height })
        };
        assert(old(client)@.pending[s as int].wf());
        let pending = &mut client.pending[s];
        pending.record_viewport(Some(src), None);
        proof {
            assert(later(old(client)@.pending[s as int].dst_size, None) == old(client)@.pending[s as int].dst_size);
            lemma_recorded_wf(old(client)@, s, client@.pending[s as int]);
        }
        Ok(())
    }

    /// The surface at `s` has the given size from the next commit on, or the size
    /// that its buffer or its source rectangle gives again.
    pub fn set_destination(client: &mut Client, s: usize, width: i32, height: i32) -> (r: Result<
        (),
        WpViewportError,
    >)
        requires
            old(client).wf(),
            s < old(client)@.surfaces.len(),
        ensures
            final(client).wf(),
            match spec_destination(width, height) {
                Ok(dst) => r.is_ok() && final(client)@ == recorded(
                    old(client)@,
                    s,
                    PendingState { dst_size: Some(dst), ..old(client)@.pending[s as int] },
                ),
                Err(e) => r == Err::<(), WpViewportError>(e) && final(client)@ == old(client)@,
            },
    {
        let dst = if width == UNSET && height == UNSET {
            None
        } else if width <= 0 || height <= 0 {
            return Err(WpViewportError::InvalidDestRect);
        } else {
            Some((width, height))
        };
        assert(old(client)@.pending[s as int].wf());
        let pending = &mut client.pending[s];
        pending.record_viewport(None, Some(dst));
        proof {
            assert(later(old(client)@.pending[s as int].src_rect, None) == old(client)@.pending[s as int].src_rect);
            lemma_recorded_wf(old(client)@, s, client@.pending[s as int]);
        }
        Ok(())
    }

    /// The viewport object goes: the surface shows its whole buffer at its own
    /// size again from the next commit on.
    pub fn destroy(client: &mut Client, s: usize)
        requires
            old(client).wf(),
            s < old(client)@.surfaces.len(),
        ensures
            final(client).wf(),
            final(client)@ == recorded(
                old(client)@,
                s,
                PendingState {
                    src_rect: Some(None),
                    dst_size: Some(None),
                    ..old(client)@.pending[s as int]
                },
            ),
    {
        assert(old(client)@.pending[s as int].wf());
        let pending = &mut client.pending[s];
        pending.record_viewport(Some(None), Some(None));
        proof {
            lemma_recorded_wf(old(client)@, s, client@.pending[s as int]);
        }
    }
}

} // verus!
