//! A client of the X Window System protocol, and a small software canvas.
//!
//! `wire`, `setup` and `requests` build request frames and read the server's
//! frames; `tracker` numbers the requests and matches replies, errors and
//! events to them; `extension` caches what the server says of extensions.
//! `canvas` and `draw` paint into an in-memory framebuffer; `bdf` holds the
//! plain types of bitmap fonts.
use vstd::prelude::*;

pub mod bdf;
pub mod canvas;
pub mod draw;
pub mod extension;
pub mod requests;
pub mod setup;
pub mod tracker;
pub mod wire;

verus! {

} // verus!
