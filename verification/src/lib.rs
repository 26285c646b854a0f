pub mod util;
pub mod render;
pub mod world;
pub mod game;
