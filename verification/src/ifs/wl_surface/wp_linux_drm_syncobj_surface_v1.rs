//! Explicit synchronisation: the object through which a client names the points at
//! which a buffer may be read and at which it is given back.

use vstd::prelude::*;
use crate::client::{Client, Scene};
use crate::gfx_api::SyncObjPoint;
use crate::ifs::wl_surface::pending::PendingState;
use crate::ifs::wl_surface::requests::{lemma_recorded_wf, recorded};
use crate::ifs::wl_surface::WlSurface;

verus! {

#[derive(Copy, Clone, Debug, PartialEq, Eq, Structural)]
pub enum WpLinuxDrmSyncobjSurfaceV1Error {
    /// The surface has an object for explicit synchronisation already.
    SurfaceExists,
    /// The surface has no object for explicit synchronisation.
    NoSurface,
}

/// The object for explicit synchronisation of a surface.
pub struct WpLinuxDrmSyncobjSurfaceV1;

impl WpLinuxDrmSyncobjSurfaceV1 {
    /// Gives the surface at `s` an object for explicit synchronisation; every
    /// commit that brings a buffer has to name both points from then on.
    pub fn install(client: &mut Client, s: usize) -> (r: Result<(), WpLinuxDrmSyncobjSurfaceV1Error>)
        requires
            old(client).wf(),
            s < old(client)@.surfaces.len(),
        ensures
            final(client).wf(),
            r.is_ok() <==> !old(client)@.surfaces[s as int].sync_obj_surface,
            r.is_err() ==> r == Err::<(), WpLinuxDrmSyncobjSurfaceV1Error>(
                WpLinuxDrmSyncobjSurfaceV1Error::SurfaceExists,
            ) && final(client)@ == old(client)@,
            r.is_ok() ==> final(client)@ == (Scene {
                surfaces: old(client)@.surfaces.update(
                    s as int,
                    WlSurface { sync_obj_surface: true, ..old(client)@.surfaces[s as int] },
                ),
                ..old(client)@
            }),
    {
        if client.surfaces[s].sync_obj_surface {
            return Err(WpLinuxDrmSyncobjSurfaceV1Error::SurfaceExists);
        }
        let surface = &mut client.surfaces[s];
        surface.sync_obj_surface = true;
        proof {
            assert forall|i: int| 0 <= i < client@.surfaces.len() implies (
            #[trigger] client@.surfaces[i]).wf() by {
                assert(old(client)@.surfaces[i].wf());
            }
        }
        Ok(())
    }

    /// Names the point at which the next buffer may be read.
    pub fn set_acquire_point(client: &mut Client, s: usize, point: SyncObjPoint) -> (r: Result<
        (),
        WpLinuxDrmSyncobjSurfaceV1Error,
    >)
        requires
            old(client).wf(),
            s < old(client)@.surfaces.len(),
        ensures
            final(client).wf(),
            r.is_ok() <==> old(client)@.surfaces[s as int].sync_obj_surface,
            r.is_err() ==> r == Err::<(), WpLinuxDrmSyncobjSurfaceV1Error>(
                WpLinuxDrmSyncobjSurfaceV1Error::NoSurface,
            ) && final(client)@ == old(client)@,
            r.is_ok() ==> final(client)@ == recorded(
                old(client)@,
                s,
                PendingState { acquire_point: Some(point), ..old(client)@.pending[s as int] },
            ),
    {
        if !client.surfaces[s].sync_obj_surface {
            return Err(WpLinuxDrmSyncobjSurfaceV1Error::NoSurface);
        }
        assert(old(client)@.pending[s as int].wf());
        let pending = &mut client.pending[s];
        pending.record_explicit_sync_points(Some(point), None);
        proof {
            lemma_recorded_wf(old(client)@, s, client@.pending[s as int]);
        }
        Ok(())
    }

    /// Names the point that signals when the next buffer is given back.
    pub fn set_release_point(client: &mut Client, s: usize, point: SyncObjPoint) -> (r: Result<
        (),
        WpLinuxDrmSyncobjSurfaceV1Error,
    >)
        requires
            old(client).wf(),
            s < old(client)@.surfaces.len(),
        ensures
            final(client).wf(),
            r.is_ok() <==> old(client)@.surfaces[s as int].sync_obj_surface,
            r.is_err() ==> r == Err::<(), WpLinuxDrmSyncobjSurfaceV1Error>(
                WpLinuxDrmSyncobjSurfaceV1Error::NoSurface,
            ) && final(client)@ == old(client)@,
            r.is_ok() ==> final(client)@ == recorded(
                old(client)@,
                s,
                PendingState { release_point: Some(point), ..old(client)@.pending[s as int] },
            ),
    {
        if !client.surfaces[s].sync_obj_surface {
            return Err(WpLinuxDrmSyncobjSurfaceV1Error::NoSurface);
        }
        assert(old(client)@.pending[s as int].wf());
        let pending = &mut client.pending[s];
        pending.record_explicit_sync_points(None, Some(point));
        proof {
            lemma_recorded_wf(old(client)@, s, client@.pending[s as int]);
        }
        Ok(())
    }

    /// The object goes, and with it the points that the next commit would have named.
    pub fn destroy(client: &mut Client, s: usize)
        requires
            old(client).wf(),
            s < old(client)@.surfaces.len(),
        ensures
            final(client).wf(),
            final(client)@ == (Scene {
                surfaces: old(client)@.surfaces.update(
                    s as int,
                    WlSurface { sync_obj_surface: false, ..old(client)@.surfaces[s as int] },
                ),
                pending: old(client)@.pending.update(
                    s as int,
                    PendingState {
                        acquire_point: None,
                        release_point: None,
                        ..old(client)@.pending[s as int]
                    },
                ),
                ..old(client)@
            }),
    {
        let surface = &mut client.surfaces[s];
        surface.sync_obj_surface = false;
        assert(old(client)@.pending[s as int].wf());
        let pending = &mut client.pending[s];
        pending.acquire_point = None;
        pending.release_point = None;
        proof {
            let now = client@;
            assert forall|i: int| 0 <= i < now.surfaces.len() implies (#[trigger] now.surfaces[i]).wf() by {
                assert(old(client)@.surfaces[i].wf());
            }
            assert forall|i: int| 0 <= i < now.pending.len() implies (#[trigger] now.pending[i]).wf() by {
                assert(old(client)@.pending[i].wf());
            }
            assert forall|i: int| 0 <= i < now.commit_timelines.len() implies (
            #[trigger] now.commit_timelines[i]).wf() by {
                assert(old(client)@.commit_timelines[i].wf());
            }
        }
    }
}

} // verus!
