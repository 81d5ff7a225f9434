//! Types shared by every stage of the front-end.

pub mod diagnostics;
pub mod display;
pub mod expr;
pub mod func;
pub mod ident;
pub mod join;
pub mod scope;
pub mod span;
pub mod stmt;
pub mod text;
pub mod typed_ident;
pub mod view;
pub mod types;
