//! Core of the `tem` toy language: a character-level tokenizer, a small
//! evaluator and the helpers they share, with their behaviour stated as
//! Verus contracts.

pub mod token;
pub mod text;
pub mod number;
pub mod float;
pub mod tokenizer;
pub mod log;
pub mod env;
pub mod value;
pub mod class;
pub mod calc;
pub mod semantics;
pub mod unfold;
pub mod interp;
pub mod parser;
pub mod utils;
pub mod basic;
pub mod cli;
pub mod properties;
pub mod fuel;

