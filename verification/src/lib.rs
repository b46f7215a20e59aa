//! An interning table: it gives every distinct value a compact positive id and
//! resolves an id back to the value it stands for.

pub mod laws;
pub mod model;
pub mod symbol;
pub mod table;

pub use crate::symbol::{StringSymbol, Symbol};
pub use crate::table::{Interner, StringInterner};
