pub mod descriptors;
pub mod device;
pub mod materials;
pub mod structs;
pub mod terrain_upload;

pub use materials::{palette, Material, NUM_MATERIALS};
