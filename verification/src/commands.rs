//! Commands that act across monitors: directional focus, moving and swapping windows
//! between zones, cycling a zone.
pub mod window;
