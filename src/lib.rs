//! A lossless parser for TOML keys, date-times and inline tables.
//!
//! Every key and value keeps its source spelling and the whitespace around it, so that
//! what was parsed is written back byte for byte.
use vstd::prelude::*;

pub mod datetime;
pub mod errors;
pub mod key;
pub mod key_grammar;
pub mod laws;
pub mod parser;
pub mod repr;
pub mod round_trip;
pub mod strings;
mod text;
pub mod value;
pub mod value_grammar;

pub use errors::{Context, ErrorKind, RecursionCheck, ValueType};
pub use key::{Key, KeyMut};
pub use parser::{parse_key, parse_key_path, parse_value, TomlError};
pub use repr::{Decor, Repr};
pub use value::{InlineTable, TableKeyValue, Value};
