use ark_bls12_381::Fr;
use ark_ff::{BigInteger, Field, One, PrimeField};
use ark_r1cs_std::alloc::AllocVar;
use ark_r1cs_std::bits::ToBitsGadget;
use ark_r1cs_std::boolean::Boolean;
use ark_r1cs_std::eq::EqGadget;
use ark_r1cs_std::fields::fp::FpVar;
use ark_relations::r1cs::{ConstraintSystem, SynthesisError};
use cpsnarks_set::circuit::{bits_satisfy, bits_to_skip, required_leading_bits, CircuitError};
use cpsnarks_set::constraints::HashToPrimeCircuit;
use cpsnarks_set::parameters::Parameters;
use cpsnarks_set::protocol::{verification_outcome, VerificationError};

/// The big-endian bits of a field element over the modulus width.
fn field_bits(v: u64) -> Vec<bool> {
    let bits = Fr::from(v).into_repr().to_bits_be();
    let width = Fr::size_in_bits();
    bits[bits.len() - width..].to_vec()
}

/// Lays the circuit out in a fresh constraint system, using the library's
/// leading bits, and reports whether the constraints are satisfied.
fn circuit_satisfied(required_bit_size: u16, v: u64) -> bool {
    circuit_satisfied_by(required_bit_size, Fr::from(v))
}

fn circuit_satisfied_by(required_bit_size: u16, value: Fr) -> bool {
    let cs = ConstraintSystem::<Fr>::new_ref();
    let c = HashToPrimeCircuit {
        required_bit_size,
        value: Some(value),
    };
    let expected = c.leading_bits().unwrap();
    let f = FpVar::new_input(cs.clone(), || c.value.ok_or(SynthesisError::AssignmentMissing))
        .unwrap();
    let bits = f.to_non_unique_bits_be().unwrap();
    assert_eq!(bits.len(), 255);
    for (b, e) in bits.iter().zip(expected.iter()) {
        b.enforce_equal(&Boolean::constant(*e)).unwrap();
    }
    cs.is_satisfied().unwrap()
}

#[test]
fn test_circuit() {
    if !circuit_satisfied(4, 12) {
        panic!("not satisfied");
    }
}

#[test]
fn circuit_lower_boundary() {
    assert!(circuit_satisfied(4, 8));
    assert!(!circuit_satisfied(4, 7));
}

#[test]
fn circuit_upper_boundary() {
    assert!(circuit_satisfied(4, 15));
    assert!(!circuit_satisfied(4, 16));
}

#[test]
fn leading_bits_of_four_bit_circuit() {
    let c = HashToPrimeCircuit {
        required_bit_size: 4,
        value: None,
    };
    let bits = c.leading_bits().unwrap();
    assert_eq!(bits.len(), 252);
    assert!(bits[..251].iter().all(|b| !*b));
    assert!(bits[251]);
}

#[test]
fn leading_bits_refuse_bad_sizes() {
    for k in [0u16, 256, 1000] {
        let c = HashToPrimeCircuit {
            required_bit_size: k,
            value: None,
        };
        assert_eq!(c.leading_bits(), Err(CircuitError::InvalidBitSize));
    }
    let full = HashToPrimeCircuit {
        required_bit_size: 255,
        value: None,
    };
    assert_eq!(full.leading_bits(), Ok(vec![true]));
}

#[test]
fn bits_to_skip_values() {
    assert_eq!(bits_to_skip(255, 4), Ok(251));
    assert_eq!(bits_to_skip(255, 255), Ok(0));
    assert_eq!(bits_to_skip(255, 256), Err(CircuitError::InvalidBitSize));
    assert_eq!(bits_to_skip(255, 0), Err(CircuitError::InvalidBitSize));
    assert_eq!(required_leading_bits(3, 1), Ok(vec![false, false, true]));
}

#[test]
fn bits_satisfy_on_field_bits() {
    assert!(bits_satisfy(&field_bits(12), 4));
    assert!(bits_satisfy(&field_bits(8), 4));
    assert!(!bits_satisfy(&field_bits(7), 4));
    assert!(bits_satisfy(&field_bits(15), 4));
    assert!(!bits_satisfy(&field_bits(16), 4));
    assert!(bits_satisfy(&field_bits(1), 1));
    assert!(!bits_satisfy(&field_bits(0), 1));
}

#[test]
fn bits_satisfy_short_sequences() {
    assert!(bits_satisfy(&vec![false, true, false], 2));
    assert!(!bits_satisfy(&vec![true, true, false], 2));
    assert!(bits_satisfy(&vec![true, false, false], 3));
    assert!(!bits_satisfy(&vec![true], 2));
    assert!(!bits_satisfy(&vec![], 1));
    assert!(!bits_satisfy(&vec![true], 0));
}

#[test]
fn verification_needs_both_checks() {
    assert_eq!(verification_outcome(Ok(true), true), Ok(()));
    assert_eq!(
        verification_outcome(Ok(true), false),
        Err(VerificationError::VerificationFailed)
    );
    assert_eq!(
        verification_outcome(Ok(false), true),
        Err(VerificationError::VerificationFailed)
    );
    assert_eq!(
        verification_outcome(Err(SynthesisError::MalformedVerifyingKey), true),
        Err(VerificationError::VerificationFailed)
    );
}

#[test]
fn circuit_boundaries_for_level_128() {
    let params = Parameters::from_security_level(128).unwrap();
    let k = params.hash_to_prime_bits;
    assert_eq!(k, 254);
    let two = Fr::from(2u64);
    let low = two.pow([(k - 1) as u64]);
    let high = two.pow([k as u64]);
    assert!(circuit_satisfied_by(k, low));
    assert!(!circuit_satisfied_by(k, low - Fr::one()));
    assert!(circuit_satisfied_by(k, high - Fr::one()));
    assert!(!circuit_satisfied_by(k, high));
    // the candidate that a proof for these parameters commits to
    assert!(circuit_satisfied_by(k, high - Fr::from(245u64)));
}

#[test]
fn circuit_from_parameters() {
    let params = Parameters::from_security_level(128).unwrap();
    let c = HashToPrimeCircuit::from_parameters(&params, Some(Fr::from(13u64))).unwrap();
    assert_eq!(c.required_bit_size, 254);
    assert_eq!(c.value, Some(Fr::from(13u64)));
    let wide = Parameters::from_security_level(129).unwrap();
    assert_eq!(wide.hash_to_prime_bits, 256);
    assert!(matches!(
        HashToPrimeCircuit::from_parameters(&wide, None),
        Err(CircuitError::InvalidBitSize)
    ));
}
