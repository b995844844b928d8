//! Decoder for WMO BUFR messages (editions 2 and 4): descriptor keys, table
//! catalogs, the bit-stream reader, the section parsers and the
//! descriptor-driven interpreter, each with a machine-checked contract.

pub mod bits;
pub mod block;
pub mod cache;
pub mod catalog;
pub mod config;
pub mod decoder;
pub mod equivalence;
pub mod errors;
pub mod fr;
pub mod fxy;
pub mod header;
pub mod laws;
pub mod loader;
pub mod numbers;
pub mod packing;
pub mod parser;
pub mod pattern;
pub mod record;
pub mod resolve;
pub mod state;
pub mod structs;
pub mod table_path;
pub mod tables;
pub mod termination;
pub mod text;
pub mod utils;
pub mod walk;
pub mod wmo;
