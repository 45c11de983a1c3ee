//! A codec and transformation engine for NACHA ACH payment files.
//!
//! An ACH file is a sequence of fixed-width lines.  The first character of a
//! line says which kind of record the line holds; the records nest as
//! file → batch → entry → addenda.  This crate decodes such lines into an
//! [`ach_file::AchFile`], derives the trailer aggregates from the records they
//! summarise, renders the hierarchy back to lines, and applies declarative
//! split and replace rules to it.
//!
//! Every executable function carries a contract over the mathematical views
//! of the values it handles, and Verus proves the bodies against them.

pub mod error;
pub mod field;
pub mod layout;
pub mod string_reader;
pub mod text;
pub mod ach_file;
pub mod parser;
pub mod aggregate;
pub mod encoder;
pub mod condition;
pub mod config;
pub mod ach_transformations;
pub mod laws;
pub mod round_trip;
pub mod conformance;
pub mod preservation;

pub use crate::ach_transformations::{apply, load_transformations, process};
pub use crate::encoder::encode;
pub use crate::parser::{parse, parse_bytes};
