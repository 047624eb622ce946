//! Kernel and process information from the Linux `/proc` pseudo-filesystem.
//!
//! The library holds the text formats of the files it reads and the rules
//! that turn them into values; reading the files themselves is left to the
//! caller.

pub mod cmdline;
pub mod config;
pub mod entries;
pub mod error;
pub mod lineformat;
pub mod modules;
pub mod stat;
pub mod sysinfo;
pub mod number;
pub mod text;
pub mod units;
pub mod vmstat;

pub use error::InternalError;
pub use units::convert_to_kibibytes;
