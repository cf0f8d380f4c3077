pub mod font;
pub mod layout;
pub mod monitor;
pub mod picker;
pub mod pts;
pub mod rename;
pub mod state;
pub mod text;
pub mod tile;
pub mod tiling;
pub mod types;
pub mod x11;
