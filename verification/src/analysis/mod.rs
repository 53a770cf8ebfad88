//! Cryptanalysis: factorization, discrete logarithms and classical cipher analysis.
pub mod bsgs;
pub mod columnar_transposition;
pub mod fermat_factorization;
pub mod frequency_analysis;
pub mod pollard_rho_dlog;
pub mod pollard_rho_factor;
