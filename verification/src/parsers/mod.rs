//! One parser per configuration format.
//!
//! The line-oriented parsers keep every line's exact text and, where a line holds a value,
//! where in that text the value stands. Writing a file back without an edit gives the text
//! that was read; an edit changes the characters of one value, or adds a line, and nothing
//! else.

pub mod assignment;
pub mod env;
pub mod generated;
pub mod hyprlang;
pub mod ini;
pub mod monitors;
pub mod palette;
pub mod swaync;
