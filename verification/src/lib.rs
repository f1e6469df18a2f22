//! A verified parser for the definitions of the Thrift interface-definition
//! language: constants, type definitions, enums, structs, unions, exceptions
//! and services.
//!
//! The grammar is written down once, as mathematics, in [`grammar`]: every
//! rule is a function from the bytes of the input and a position to what the
//! rule matches there. The parsers are proved to compute exactly what the
//! grammar says, never to panic, and to consume nothing when they fail.
//!
//! Every node comes in two forms. The borrowed form (`ConstRef`,
//! `IdentifierRef`, ...) holds slices of the input and lives as long as the
//! input does; the owned form (`Const`, `Identifier`, ...) holds copies. Both
//! have the same model, given in [`model`], and `From` turns the borrowed
//! form into the owned one without changing the model.
//!
//! [`laws`] holds what is proved of the grammar as a whole; [`locality`],
//! [`spacing`] and [`widening`] hold the rule-by-rule proofs that the laws
//! rest on.

pub mod basic;
pub mod constant;
pub mod definition;
pub mod error;
pub mod field;
pub mod functions;
pub mod grammar;
pub mod laws;
pub mod lexical;
pub mod locality;
pub mod model;
pub mod spacing;
pub mod text;
pub mod types;
pub mod widening;
