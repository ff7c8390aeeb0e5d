//! Audio processing: time parsing, frame arithmetic, channel, fade, trim, split and join
//! operations on interleaved samples, format detection and encoding, parameter schemas,
//! and the decisions and reports of the `panaud` commands.
pub mod capabilities;
pub mod cli;
pub mod codec;
pub mod commands;
pub mod error;
pub mod info;
pub mod numparse;
pub mod ops;
pub mod schema;
pub mod text;
pub mod time;
pub mod time_laws;
pub mod types;
