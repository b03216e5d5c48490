//! The models behind the theme page: the color palette, the GTK, icon and cursor themes, and
//! the wallpaper with the lock screen's background.

pub mod backing;
pub mod discovery;
pub mod palettes;
pub mod staging;
pub mod themes;
pub mod wallpaper;
