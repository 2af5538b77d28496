//! Rewrites Python logging statements that interpolate values into their
//! message string (f-strings and `str.format()` calls) into printf-style
//! calls: a `%s` template plus an ordered argument list.
//!
//! The crate is organized around two pure entry points: `fix_file::get_changes`
//! walks a syntax tree and collects pending edits, and `fix_file::change_content`
//! splices those edits back into the source lines.

pub mod ast;
pub mod cli;
pub mod enums;
pub mod fix_file;
pub mod parse_format;
pub mod parse_fstring;
pub mod text;
pub mod utils;
pub mod visitor;
