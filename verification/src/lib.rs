//! A small expression language: integers, booleans, type annotations and a
//! conditional with two branches.
//!
//! A program is read from text ([`syntax`]), its types are inferred by a pass
//! that goes on after an error and collects every diagnostic
//! ([`type_check`]), the diagnostics are reported in reading order
//! ([`error_fmt`]), and a program without type errors is lowered to a module
//! of a stack machine and run ([`wasm`]). [`driver`] does all of this for a
//! source text.
//!
//! The laws that tie the parts together are proved beside them: what the
//! parser accepts ([`grammar`]), that what is printed is read
//! ([`roundtrip`]), and that lowering keeps the meaning of a term
//! ([`meaning`]).

pub mod ast;
pub mod driver;
pub mod error_fmt;
pub mod grammar;
pub mod meaning;
pub mod roundtrip;
pub mod source;
pub mod syntax;
pub mod text;
pub mod type_check;
pub mod wasm;
