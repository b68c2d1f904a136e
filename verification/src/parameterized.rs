//! Parameterized gates.

pub mod p;
pub mod u3;
