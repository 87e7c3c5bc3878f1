//! Rendering of serde's data model as Nix expression text, and the parts
//! of RON-to-Nix conversion that do not need serde's traits.

pub mod cli;
pub mod convert;
pub mod decimal;
pub mod error;
pub mod helpers;
pub mod map;
pub mod reindent;
pub mod seq;
pub mod serializer;
pub mod structs;

pub use cli::RonixArgs;
pub use convert::{ensure_trailing_newline, format_module, parse_ron};
pub use decimal::{decimal_i64, decimal_u64};
pub use error::Error;
pub use helpers::{escape_nix_string, format_nix_float, indent_str};
pub use map::{format_attrset, is_valid_ident, null_string, trim_quotes_str, NixMapSerializer};
pub use seq::{format_seq, NixSeqSerializer};
pub use serializer::NixSerializer;
pub use structs::NixStructSerializer;
