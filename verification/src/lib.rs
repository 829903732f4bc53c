//! A compiler for the Zed language: source text is scanned into tokens, parsed
//! into a syntax tree, and lowered to x86_64 assembly in AT&T syntax for the
//! System V AMD64 calling convention. A source formatter comes with it.
//!
//! Every stage has a mathematical model, and the executable code is proved to
//! compute exactly what the model says:
//!
//! - [`lexer`]: a cursor in a sequence of characters, and the token that
//!   starts at it ([`lexer::next_token`]).
//! - [`stream`] and [`grammar`]: the state of a parse and the grammar as
//!   recursive descent over it.
//! - [`parser`]: the parser of a translation unit. It asks its caller for the
//!   files that the source includes ([`parser::run`]).
//! - [`codegen`]: the generator's state and the lines emitted for a tree
//!   ([`codegen::generate`]).
//! - [`error`] and [`colors`]: compile errors and how they are shown.
//! - [`formatter`]: the formatted text of a source ([`formatter::format`]).
//! - [`docs`]: what a documentation generator collects from a source, and the
//!   text of a documentation comment ([`docs::cleaned`]).
//!
//! The modules whose names end in `_laws` hold what is proved of the models
//! for every input: a token is read back from its canonical form, arithmetic
//! is parsed with the standard precedence, parsing succeeds exactly when the
//! functions called are declared and the functions declared are defined, a
//! file is included at most once, and code generation is deterministic with
//! one pool entry for each distinct string literal.

pub mod text;
pub mod ast;
pub mod codegen;
pub mod codegen_laws;
pub mod colors;
pub mod error;
pub mod lexer;
pub mod lexer_laws;
pub mod stream;
pub mod grammar;
pub mod grammar_laws;
pub mod symbol_laws;
pub mod parser;
pub mod include_laws;
pub mod entry;
pub mod formatter;
pub mod docs;
