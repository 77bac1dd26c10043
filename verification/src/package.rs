//! Package identifiers and the targets that packages are built for.

pub mod ident;
pub mod ident_target;
pub mod order;
pub mod target;
pub mod text;
