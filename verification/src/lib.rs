//! Syntax trees of a small hardware-flavoured expression and statement
//! language, together with the renderer that turns a tree back into its
//! canonical source text.
//!
//! Every tree type has a specification function `text` that says, as a
//! sequence of characters, what its canonical source text is, and executable
//! functions `write_to` and `to_string` that are proved to produce exactly
//! that text. The operator enumerations also convert from their spelling.

pub mod decimal;
pub mod expr;
pub mod indent;
pub mod names;
pub mod ops;
pub mod stmt;
pub mod text;

pub use expr::{Expression, Index};
pub use names::{QName, VName};
pub use ops::{AssignOp, BinaryOp, UnaryOp};
pub use stmt::{BlockStmt, Statement};
