//! A scanner, a recursive-descent parser and a tree-walking evaluator for a
//! small dynamically typed scripting language.
//!
//! * [`scanner`] turns source text into tokens; what it gives is defined by
//!   [`scanner::scan`].
//! * [`parser`] turns tokens into statements; what it gives is defined by
//!   the functions of [`grammar`].
//! * [`interpreter`] runs statements against the scopes of [`environment`].
//!   It is the machine that [`semantics`] defines, and [`evaluation`] says
//!   what that machine computes.
//!
//! Numbers are IEEE-754 binary64 values held as their bit patterns
//! ([`number`]). The library decides their sign, equality and order itself.
//! It asks its host to compute sums, differences, products and quotients, to
//! read the value of a number token from its text, to render a number in
//! decimal and to write output. The evaluator asks through
//! [`interpreter::Action`]. The values of the number tokens are handed to
//! [`scanner::attach_numbers`], which attaches each to its token, and the
//! parser takes the value of a number token from the token's literal.

pub mod text;
pub mod number;
pub mod scanner;
pub mod expr;
pub mod stmt;
pub mod grammar;
pub mod parser;
pub mod environment;
pub mod semantics;
pub mod evaluation;
pub mod parsed;
pub mod interpreter;
pub mod error;
