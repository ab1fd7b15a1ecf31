//! A string-interning table: every distinct text gets a small, dense, stable
//! identifier, and the text can be recovered from the identifier.

pub mod index;
pub mod laws;
pub mod model;
pub mod table;

pub use table::{Intern, InternId};
