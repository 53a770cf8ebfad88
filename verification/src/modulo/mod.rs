//! Modular arithmetic with traces: operations, inverses and cyclic groups.
pub mod cyclic_groups;
pub mod inverse_additive;
pub mod inverse_multiplicative;
pub mod operations;
