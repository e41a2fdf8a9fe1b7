//! A verified hex dump library.
//!
//! The library turns byte buffers into the textual lines of a hex + ASCII
//! dump, renders the trailing size summary, and decides which command-line
//! arguments become dump jobs. All file and console I/O lives outside the
//! library; callers hand in plain bytes and print what comes back.

pub mod intake;
pub mod laws;
pub mod render;
pub mod summary;
