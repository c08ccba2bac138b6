//! The data shapes of a theme document, before and after compilation.

pub mod ast;
pub mod ctx;
pub mod ir;
pub mod value;
