//! Constant (parameter-free) gates.

pub mod h;
pub mod i;
pub mod swap;
pub mod x;
