//! Teaching toolkit for classical and modern cryptography with step-by-step traces.
pub mod algorithms;
pub mod analysis;
pub mod dispatch;
pub mod error;
pub mod fermat;
pub mod math;
pub mod menu;
pub mod modulo;
pub mod playbooks;
pub mod render;
pub mod text;
pub mod trace;
pub mod validation;
