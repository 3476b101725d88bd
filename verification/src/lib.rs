//! An inline markup engine for terminal output.
//!
//! Text may carry directives: `@`-prefixed colour markers (`@r`, `@x196`),
//! `#`-prefixed Unicode code points (`#263A`), and `@@` / `##` escapes for
//! the literal trigger characters.  The crate resolves those directives,
//! renders text into ANSI escape sequences, measures the visible width of
//! marked-up text, and generates gradient colour effects over plain text.

pub mod chars;
pub mod effects;
pub mod gradient;
pub mod render;
pub mod resolver;
