use vstd::prelude::*;

verus! {

/// The name of the type that holds the BN254 scalar field in halo2curves.
pub const CURVE_BN254: &'static str = "halo2curves::bn256::fr::Fr";

/// The name of the type that holds the BN254 scalar field in arkworks.
pub const CURVE_BN254_ARK: &'static str =
    "ark_ff::fields::models::fp::Fp<ark_ff::fields::models::fp::montgomery_backend::MontBackend<ark_bn254::fields::fr::FrConfig, 4>, 4>";

/// The compiler version whose programs are accepted.
pub const NOIR_VERSION_0_33: &'static str = "0.33.0+325dac54efb6f99201de9fdeb0a507d45189607d";

} // verus!
