//! Front end and code generator of a small expression-oriented language.
//!
//! Source text is scanned into tokens ([`lexer`]), parsed into an ordered
//! list of declarations, function definitions and calls ([`parser`], with
//! [`expr_parser`] for expressions and [`ctx`] for scopes), and lowered to
//! the text of a register-symbolic intermediate representation
//! ([`compiler`]).
//!
//! ```text
//! i64 x = 2 + 3;            %x =l copy 5
//! print(x);          ==>    call $print_i64(l %x, w 1)
//! ```
//!
//! Every stage has a model, a function over sequences of bytes and of
//! tokens that says what the stage produces, and every executable function
//! is proved to compute what its model says. What holds of the models
//! beyond that is stated in [`laws`].
//!
//! The library does no floating-point arithmetic. A floating-point
//! constant is held as its bit pattern, and the parser looks up each
//! operation it needs in a table of results ([`fpu`]). Where a result is
//! missing the parser stops and names the operation; its caller computes
//! the result, records it and parses again:
//!
//! ```text
//! let mut table = FloatTable::new();
//! let asts = loop {
//!     match Parser::new(&tokens).parse(&table) {
//!         Ok(asts) => break asts,
//!         Err(Stop::Float(op)) => { let bits = compute(&op); table.record(op, bits); }
//!         Err(Stop::Error(err)) => return Err(err),
//!     }
//! };
//! ```

pub mod ast;
pub mod compiler;
pub mod ctx;
pub mod error;
pub mod expr_parser;
pub mod fpu;
pub mod laws;
pub mod lexer;
pub mod parser;
pub mod text;
