//! Reading GDSII stream files into a layout database, and the data that a
//! layout viewer exchanges with its clients.
//!
//! Coordinates are the integer database units of the stream format; reals
//! of the format (magnification, angle, units) are kept as the bit pattern
//! of their IBM 8-byte encoding.
pub mod types;
pub mod bytes;
pub mod reader;
pub mod text;
pub mod cell;
pub mod parser;
pub mod api;
pub mod query;
pub mod bundle;
pub mod order;
pub mod hierarchy;
pub mod laws;
pub mod parse_laws;
pub mod encoding_laws;
