//! Gates composed from other gates.

pub mod control;
pub mod dagger;
