//! A compiler for a small Scheme: from source text to a C translation unit
//! that runs on a trampolined runtime.
//!
//! The program passes through a line of forms. [`lexer`] and [`parse`] read
//! the text into the surface form of [`base_expr`]; desugaring turns
//! definitions and `let` into assignments and calls; [`bind`] resolves
//! every name to a fresh variable and brings functions and calls to one
//! parameter and one argument ([`expr`]); [`cont_expr`] brings the program
//! into continuation-passing form, [`flat_expr`] merges values and
//! computations into one type, and [`lift`] moves every function to the top
//! level ([`lifted_expr`]); [`codegen`] emits C declarations and statements
//! ([`cdsl`]), and [`program`] writes the translation unit. [`nodes`] and
//! [`transform`] hold the first of these steps on a form in which variables
//! are plain names, drawn from the supply of fresh names that every step
//! shares.
//!
//! What the stages compute is stated over mathematical views of the forms,
//! and [`desugar`], [`scoping`], [`renaming`], [`capture`] and [`lift`]
//! hold what is proved of them: desugared programs are in the core
//! language, resolved programs are closed, neither spelling nor the state
//! of the supply of names reaches the resolved form but through the names
//! of its binders, the translation to continuation-passing form keeps the
//! free variables and captures none, and lifted functions are closed over
//! their parameters and free variables.

pub mod base_expr;
pub mod bind;
pub mod capture;
pub mod cdsl;
pub mod codegen;
pub mod cont_expr;
pub mod desugar;
pub mod error;
pub mod expr;
pub mod flat_expr;
pub mod lexer;
pub mod lift;
pub mod lifted_expr;
pub mod literals;
pub mod names;
pub mod nodes;
pub mod parse;
pub mod program;
pub mod renaming;
pub mod scoping;
pub mod transform;
pub mod utils;
