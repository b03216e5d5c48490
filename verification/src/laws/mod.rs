//! What holds of the library as a whole: laws that relate several operations, each stated
//! over the models that the operations' own contracts use.

pub mod backing;
pub mod discovery;
pub mod env;
pub mod env_lines;
pub mod generated;
pub mod hyprlang;
pub mod hyprlang_fields;
pub mod hyprlang_lines;
pub mod ini;
pub mod ini_lines;
pub mod messages;
pub mod models;
pub mod monitor_lines;
pub mod monitors;
pub mod palette;
pub mod palette_lines;
pub mod palettes;
pub mod staging;
pub mod store;
pub mod swaync;
pub mod tables;
pub mod text;
pub mod theme_values;
pub mod themes;
pub mod values;
pub mod wallpaper;
pub mod wallpaper_values;
