//! Parsing of MSVC-style linker MAP files and export of their symbols as a
//! plain address/name listing.
pub mod text;
pub mod number;
pub mod map;
pub mod scan;
pub mod parse;
pub mod export;
pub mod laws;

pub use export::{export_entry, sanitize_name};
pub use map::{Address, Class, Field, LibObject, MapFile, ParseError, Rva, Section, Stage, Symbol};
pub use scan::rva_from_raw;
