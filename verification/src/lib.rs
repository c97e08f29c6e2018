//! An in-memory raster annotation engine for screen captures.
//!
//! The engine keeps three same-sized pixel buffers: `committed` (the pristine
//! capture), `checkpoint` (the last committed edit state) and `working` (the
//! buffer that is displayed and edited).  Destructive tools (freehand stroke,
//! highlight, erase, text) accumulate onto `working`; preview tools
//! (rectangle, circle, arrow, crop marquee) redraw from `checkpoint` on every
//! drag sample, so an in-progress gesture never compounds.

#![allow(unused_imports)]
#![verifier::loop_isolation(false)]

pub mod buffer;
pub mod color;
pub mod error;
pub mod export;
pub mod hotkey;
pub mod raster;
pub mod screenshot;
pub mod session;
pub mod settings;
pub mod text;
