pub mod metal;
pub mod xorg;
