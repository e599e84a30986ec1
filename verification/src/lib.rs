//! An interpreter for a small imperative, class-based scripting language.
//!
//! Source text is lexed into tokens ([`lexer`]), parsed into a uniform
//! syntax tree ([`expression`], [`parser`]), linked across imports into one
//! list of globals with a lookup table for every file ([`linker`]), and run
//! by a tree-walking evaluator ([`evaluator`]) on an activation stack
//! ([`stack`]) and an object system ([`objsys`]).
//!
//! What each stage computes is stated as a mathematical function: the
//! tokens of a text in [`lexer`], the grammar in [`grammar`], the visit of
//! a file and its imports in [`linker`], the meaning of a tree in
//! [`semantics`]. The executable functions are proved to compute exactly
//! that. [`laws`] and [`reach`] hold what follows for all inputs.
//!
//! The library reads no files and prints nothing: sources come in a table,
//! output comes back as lines, errors as values.

pub mod context;
pub mod evaluator;
pub mod expression;
pub mod fifo;
pub mod grammar;
pub mod laws;
pub mod lexer;
pub mod linker;
pub mod meaning;
pub mod node;
pub mod object;
pub mod objsys;
pub mod ops;
pub mod parser;
pub mod reach;
pub mod reader;
pub mod semantics;
pub mod stack;
pub mod text;
pub mod token;
pub mod utils;
pub mod value;
