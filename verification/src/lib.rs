//! Verified core of a programming tool for USB LED name badges.
//!
//! The library builds the badge's wire format (a 64-byte header followed by
//! bitmap columns), renders text with inline `:icon:` references, frames
//! payloads into USB reports, and decides what the system monitor shows.
pub mod font;
pub mod monitor;
pub mod payload;
pub mod protocol;
pub mod renderer;
pub mod text;
pub mod usb;

use vstd::prelude::*;

verus! {

} // verus!
