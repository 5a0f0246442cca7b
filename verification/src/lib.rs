//! The core of a Wayland compositor: how the requests of a client to a surface
//! accumulate, how a commit makes them take effect for the surface and the
//! subsurfaces below it, and when the buffers that surfaces have shown go back to
//! the client.
//!
//! The library decides and keeps state; it does no input or output. What has to be
//! done outside of it, it hands on as a list of events (`client::Event`).

pub mod backend;
pub mod backends;
pub mod client;
pub mod fixed;
pub mod forker;
pub mod gfx_api;
pub mod ifs;
pub mod it;
pub mod rect;
pub mod transform;
pub mod utils;
