pub mod monitor;
pub mod system;
pub mod window;
pub mod zone;
