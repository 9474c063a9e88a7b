//! A stack-based calculator core whose values carry physical units.

pub mod builtins;
pub mod eval;
pub mod float;
pub mod integer;
pub mod stack;
pub mod text;
pub mod units;
