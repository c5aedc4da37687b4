//! Multiparty (threshold) BFV: common random polynomials, per-party shares,
//! and their aggregation into collective keys and ciphertexts.
use vstd::prelude::*;

pub mod errors;
pub mod ring;
mod math;
pub mod bfv;
pub mod aggregate;
pub mod crp;
pub mod public_key_gen;
pub mod public_key_switch;
pub mod relin_key_gen;
pub mod secret_key_switch;
mod sealed;

pub use aggregate::Aggregate;
pub use bfv::{BfvParameters, Ciphertext, KeySwitchingKey, PublicKey, RelinearizationKey, SecretKey};
pub use crp::{generate_crp, generate_crp_leveled, generate_crp_vec};
pub use errors::Error;
pub use public_key_gen::PublicKeyShare;
pub use public_key_switch::PublicKeySwitchShare;
pub use relin_key_gen::{R1Aggregated, RelinKeyGenerator, RelinKeyShare, Round, R1, R2};
pub use ring::Poly;
pub use secret_key_switch::{DecryptionShare, SecretKeySwitchShare};

