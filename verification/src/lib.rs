//! Layout and rendering logic for a terminal shell's tab bar and vertical tab strip.

pub mod scroll;
pub mod width;
pub mod model;
pub mod text;
pub mod draw;
pub mod rows;
pub mod strip;
pub mod drop;
pub mod frame;
pub mod bar;
pub mod bar_frame;
