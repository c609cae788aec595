use vstd::prelude::*;
use crate::parameters::Parameters;
use crate::circuit::{CircuitError, required_leading_bits, required_prefix};
use ark_bls12_381::Fr;
use ark_ff::PrimeField;

verus! {

#[verifier::external_type_specification]
#[verifier::external_body]
#[verifier::reject_recursive_types(P)]
pub struct ExFp256<P>(ark_ff::Fp256<P>);

#[verifier::external_type_specification]
#[verifier::external_body]
pub struct ExFrParameters(ark_bls12_381::FrParameters);

/// Relies on `PrimeField::size_in_bits` for the BLS12-381 scalar field, whose
/// modulus has 255 bits (`FrParameters::MODULUS_BITS`).
#[verifier::external_body]
pub(crate) fn scalar_field_bits() -> (r: usize)
    ensures
        r == 255,
{
    Fr::size_in_bits()
}

/// The arithmetic circuit stating that a hidden element of the BLS12-381
/// scalar field has exactly `required_bit_size` significant bits.
pub struct HashToPrimeCircuit {
    pub required_bit_size: u16,
    /// The element, present when proving and absent when only the shape of
    /// the circuit is needed.
    pub value: Option<Fr>,
}

impl HashToPrimeCircuit {
    /// The circuit for a set of security parameters: the element must have
    /// `hash_to_prime_bits` significant bits. Parameters whose candidate is
    /// empty or wider than the field are refused here, before any circuit
    /// exists.
    pub fn from_parameters(parameters: &Parameters, value: Option<Fr>) -> (r: Result<
        HashToPrimeCircuit,
        CircuitError,
    >)
        ensures
            match r {
                Ok(c) => 1 <= parameters.hash_to_prime_bits <= 255 && c.required_bit_size
                    == parameters.hash_to_prime_bits && c.value == value,
                Err(e) => (parameters.hash_to_prime_bits == 0 || parameters.hash_to_prime_bits
                    > 255) && e == CircuitError::InvalidBitSize,
            },
    {
        let k = parameters.hash_to_prime_bits;
        if k == 0 || k as usize > scalar_field_bits() {
            return Err(CircuitError::InvalidBitSize);
        }
        Ok(HashToPrimeCircuit { required_bit_size: k, value })
    }

    /// The values that the leading bits of the element's big-endian
    /// decomposition over the full modulus width are constrained to: zeros
    /// down to the last `required_bit_size` bits, then a one. A required bit
    /// size of zero or wider than the field is refused, so that no
    /// constraint is ever laid out from a wrapped-around width.
    pub fn leading_bits(&self) -> (r: Result<Vec<bool>, CircuitError>)
        ensures
            match r {
                Ok(bits) => 1 <= self.required_bit_size <= 255 && bits@ == required_prefix(
                    255,
                    self.required_bit_size as nat,
                ),
                Err(e) => (self.required_bit_size == 0 || self.required_bit_size > 255) && e
                    == CircuitError::InvalidBitSize,
            },
    {
        required_leading_bits(scalar_field_bits(), self.required_bit_size)
    }
}

} // verus!
