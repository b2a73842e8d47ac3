//! An abstract syntax tree for regular-expression-like patterns.
//!
//! The tree is an owning structure: every composite node owns its child
//! sequence, and the sequences that must never be empty are wrapped in
//! [`util::slice::NonEmpty`].  The two operations of substance are
//! [`ast::Ast::normalize`], which rewrites a tree into its canonical form,
//! and [`ast::Ast::clone_into`], which produces a structurally equal copy.

pub mod ast;
pub mod util;

pub use ast::Alt;
pub use ast::Ast;
pub use ast::Children;
pub use ast::Class;
pub use ast::ByteRange;
pub use ast::Concat;
pub use ast::Group;
pub use ast::Lit;
pub use ast::Repeat;
pub use ast::RepeatKind;
