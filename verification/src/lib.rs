//! Verified core of the Xteink X4 e-reader: button decoding, input debouncing,
//! navigation state machines, the ZIP/EPUB reader, the grayscale framebuffer and
//! the text layout and pagination pipeline.
use vstd::prelude::*;

pub mod book;
pub mod browser;
pub mod buttons;
pub mod cache;
pub mod cached;
pub mod card;
pub mod controller;
pub mod display;
pub mod epub;
pub mod font;
pub mod framebuffer;
pub mod gpio;
pub mod fs;
pub mod host;
pub mod input;
pub mod memory;
pub mod paginator;
pub mod power;
pub mod reader;
pub mod render;
pub mod sd;
pub mod sd_path;
pub mod session;
pub mod simulator;
pub mod text;
pub mod title;
pub mod volume;
pub mod zip;

verus! {

} // verus!
