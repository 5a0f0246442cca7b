pub mod wl_buffer;
pub mod wl_output;
pub mod wl_surface;
pub mod xdg_positioner;
