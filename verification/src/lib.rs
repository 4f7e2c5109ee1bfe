//! A derive-style source generator for error enums.
//!
//! Given the token form of an enum whose variants carry `#[error("...")]`
//! message attributes, doc comments, and `#[from]` / `#[source]` field
//! markers, the library builds a structured model of the enum and emits the
//! source text of three implementations: an error-cause accessor, a display
//! routine (unless the enum is marked `#[no_display]`), and one conversion
//! constructor per `#[from]` field.

use vstd::prelude::*;

pub mod codegen;
pub mod cursor;
pub mod laws;
pub mod model;
pub mod parser;
pub mod text;
pub mod tokens;

use crate::model::{Diagnostic, Error};
use crate::tokens::Token;

verus! {

/// Derive the three implementations for the enum definition the tokens
/// hold: parse the definition into its model, then emit the error-cause
/// accessor, the display routine (unless `#[no_display]` is set), and one
/// conversion constructor per `#[from]` field — or the first diagnostic
/// the input earns, in place of all output.
///
/// `end_pos` is the source position diagnostics point at when the input
/// ends too early.
pub fn derive_error(input: &Vec<Token>, end_pos: u32) -> (r: Result<String, Diagnostic>)
    ensures
        match crate::parser::spec_enum(input@, end_pos) {
            Err(d) => r matches Err(e) && e@ == d,
            Ok(m) => match crate::codegen::spec_generate(m) {
                Ok(t) => r matches Ok(s) && s@ == t,
                Err(d) => r matches Err(e) && e@ == d,
            },
        },
{
    let ast = match Error::parse(input, end_pos) {
        Ok(a) => a,
        Err(d) => return Err(d),
    };
    crate::codegen::generate(&ast)
}

} // verus!
