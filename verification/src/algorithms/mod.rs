//! Encryption, signature and key-exchange schemes, each producing a trace.
pub mod caesar;
pub mod curve_singularity;
pub mod diffie_hellman;
pub mod ecc;
pub mod elgamal;
pub mod elgamal_signature;
pub mod fiat_shamir;
pub mod letters;
pub mod paillier;
pub mod rsa;
pub mod rsa_signature;
pub mod shamir_three_pass;
pub mod substitution;
