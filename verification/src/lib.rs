//! A terminal pixel renderer: a depth-tested canvas whose cells intern their
//! colors in a palette, a dirty-row diff pass that turns frame changes into
//! minimal ANSI escape output, and decoders for the SGR mouse protocol and
//! terminal input events.
//!
//! Every drawing operation works on plain values; the process-level pieces
//! (raw mode, the output stream, the event listeners) live outside and feed
//! the library sizes, bytes and events.

pub mod escape;
pub mod pixels;
pub mod rael;
pub mod underterm;

pub use rael::Color;
pub use rael::ImageAsset;
pub use rael::Rael;
