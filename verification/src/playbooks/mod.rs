//! Exam-style walkthroughs that combine the algorithms: breaking keys from
//! public values and checking homomorphic properties.
pub mod common;
pub mod dh_geg_g_p_alpha_beta_ges_k;
pub mod dh_ges_schluessel;
pub mod elgamal_geg_kpub_ges_kpriv;
pub mod elgamal_geg_kpub_ges_priv_verf;
pub mod elgamal_geg_sig_kpub_ges_legitsig;
pub mod elgamal_mult_homomorph;
pub mod paillier_add_homomorph;
pub mod rsa_geg_kpub_ges_kpriv_plain;
pub mod rsa_geg_kpub_kpriv_encm_ges_kpriv_to_kpub;
pub mod rsa_geg_pub_enc_ges_priv_plain;
