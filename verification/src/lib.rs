//! A small expression language for tabletop dice rolls.
//!
//! Input lines such as `!roll 2d6 + 1` are parsed into a [`types::Statement`]
//! tree, evaluated against a per-user variable environment with an explicit
//! call/return stack, and rendered back as text.  Variables and first-class
//! roll templates persist through the [`types::Environment`] abstraction,
//! and stored expressions travel through the canonical encoding in
//! [`codec`].
pub mod call_stack;
pub mod codec;
pub mod decimal;
pub mod dice;
pub mod environments;
pub mod error;
pub mod eval;
pub mod laws;
pub mod parser;
pub mod render;
pub mod repl;
pub mod text;
pub mod types;
