pub mod capture;
pub mod clock;
pub mod config;
pub mod coord;
pub mod daemon;
pub mod json;
pub mod layout;
pub mod niri;
pub mod overlay;
pub mod png;
pub mod raster;
pub mod text;
pub mod tray;
