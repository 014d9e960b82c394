//! A hexdump-style renderer: fixed-size byte lines in several textual
//! formats, with collapsing of repeated lines.
pub mod ascii;
pub mod digits;
pub mod dump;
pub mod error;
pub mod render;
pub mod squeeze;
