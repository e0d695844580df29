//! A declarative command-line argument parsing and validation engine.
//!
//! A caller describes the arguments a program accepts — flags, valued
//! options, positionals, subcommands, environment fallbacks, defaults,
//! numeric ranges and custom validators — as a [`schema::Schema`] value.
//! The engine tokenizes a raw argument vector, matches the tokens against
//! the schema, merges environment and default fallbacks, coerces every raw
//! string into a typed value, and routes through the subcommand tree,
//! returning either a fully bound configuration or a single diagnostic
//! error.  Every step is a pure function of its inputs: the engine itself
//! performs no I/O — the caller reads the argument vector and the
//! environment and hands them in as plain values.

pub mod bind;
pub mod color;
pub mod diag;
pub mod digits;
pub mod schema;
pub mod strutil;
pub mod token;
pub mod validators;
pub mod value;

pub use bind::{bind, route, Binding, BoundSet, BoundValue, EnvPair, Provenance};
pub use color::{use_colors, ColorMode, Stream};
pub use diag::{describe, ErrorKind, ValidationError};
pub use schema::{
    validate_schema, ArgKind, ArgumentSpec, Arity, Schema, SchemaError, Subcommand, Validator,
    ValueType,
};
pub use token::{tokenize, Token};
pub use validators::{parse_percentage, port_in_range, validate_directory, validate_email};
pub use value::{canonical_string, coerce, TypedValue};
