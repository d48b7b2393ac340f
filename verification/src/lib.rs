//! Static checking of a hand-annotated resource-ownership discipline.
//!
//! A generic syntax tree is lowered into a small intermediate representation
//! of functions, instructions and expressions, and that representation is
//! then interpreted against a flat ownership environment: a binding that
//! still owns a resource must not be overwritten.

pub mod ast;
pub mod def;
pub mod error;
pub mod lower;
pub mod straight;
pub mod table;
pub mod text;
pub mod verify;
