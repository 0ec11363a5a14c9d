//! Batch transformation engine for medical-imaging records.
//!
//! - `record`: the record model (fields with tag, value representation and
//!   value, nested records in sequences) and its field operations.
//! - `value`: type-correct values from literal text, and the text of a value.
//! - `dict`: field names resolved through the standard data dictionary.
//! - `cookbook`: the rule configuration and its validation.
//! - `transform`, `fields`, `anon`: masking, adding, deleting, purging private
//!   fields, date scrubbing and unique-identifier remapping.
//! - `registry`: string maps, the subject identity registry, mapping tables.
//! - `naming`, `sort`: output file names and directories, collision suffixes.
//! - `pipeline`: per-file anonymization and deidentification, run counters.
//! - `args`: the command-line arguments.
//! - `text`: character-sequence helpers.

pub mod anon;
pub mod args;
pub mod cookbook;
pub mod dict;
pub mod fields;
pub mod naming;
pub mod pipeline;
pub mod record;
pub mod registry;
pub mod sort;
pub mod text;
pub mod transform;
pub mod value;
