pub mod assoc;
pub mod game;
pub mod map;
pub mod map_laws;
pub mod render;
pub mod room;
