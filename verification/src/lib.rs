//! Lossless editing of the configuration files behind a Hyprland desktop, and the
//! staging models that decide what an "Apply" writes into them.

pub mod apply;
pub mod disk;
pub mod freshness;
pub mod laws;
pub mod lines;
pub mod model;
pub mod parsers;
pub mod search;
pub mod store;
pub mod store_write;
pub mod table;
pub mod text;
pub mod theme;
