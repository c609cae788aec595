use vstd::prelude::*;
use crate::constraints::scalar_field_bits;

verus! {

/// Security parameters of the hash-to-prime range proof.
#[derive(Clone, Copy, Debug, PartialEq, Eq, Structural)]
pub struct Parameters {
    /// Statistical zero-knowledge slack, in bits.
    pub security_zk: u16,
    /// Soundness error exponent, in bits.
    pub security_soundness: u16,
    /// Required bit length of the prime candidate.
    pub hash_to_prime_bits: u16,
    /// Bit length of the working field's modulus.
    pub field_size_bits: u16,
}

/// Why a set of parameters was rejected.
#[derive(Clone, Copy, Debug, PartialEq, Eq, Structural)]
pub enum ParametersError {
    InvalidParameters,
}

/// Number of `hash_to_prime_bits`-wide blocks that the range proof pads with:
/// `1 + floor((security_zk + security_soundness + 2) / hash_to_prime_bits)`.
pub open spec fn padding_blocks(p: Parameters) -> int
    recommends
        p.hash_to_prime_bits > 0,
{
    1 + (p.security_zk + p.security_soundness + 2) as int / p.hash_to_prime_bits as int
}

/// The field must hold the padded range with two bits of headroom.
pub open spec fn valid_parameters(p: Parameters) -> bool {
    &&& p.hash_to_prime_bits > 0
    &&& padding_blocks(p) * p.hash_to_prime_bits + 2 <= p.field_size_bits
}

/// The tuple derived from a security level and a field size, when every
/// field of it is a 16-bit unsigned integer.
pub open spec fn derived_parameters(level: int, field_bits: int) -> Option<Parameters> {
    if 3 <= level && 2 * level <= u16::MAX && 0 <= field_bits <= u16::MAX {
        Some(
            Parameters {
                security_zk: (level - 3) as u16,
                security_soundness: (level - 2) as u16,
                hash_to_prime_bits: (2 * level - 2) as u16,
                field_size_bits: field_bits as u16,
            },
        )
    } else {
        None
    }
}

/// What `from_security_level(level)` yields: the derived tuple for a field of
/// `2 * level` bits, when it exists and is valid.
pub open spec fn params_from_level(level: int) -> Option<Parameters> {
    match derived_parameters(level, 2 * level) {
        Some(p) => if valid_parameters(p) {
            Some(p)
        } else {
            None
        },
        None => None,
    }
}

/// What `from_field_bit_length(bits)` yields: the level `floor(bits / 2)`
/// and the tuple derived from it, when it exists and is valid.
pub open spec fn params_from_field_bits(bits: int) -> Option<(Parameters, u16)> {
    match derived_parameters(bits / 2, bits) {
        Some(p) => if valid_parameters(p) {
            Some((p, (bits / 2) as u16))
        } else {
            None
        },
        None => None,
    }
}

impl Parameters {
    /// Derives the parameters for a target security level and validates them.
    pub fn from_security_level(security_level: u16) -> (r: Result<Parameters, ParametersError>)
        ensures
            match r {
                Ok(p) => params_from_level(security_level as int) == Some(p),
                Err(e) => params_from_level(security_level as int) is None && e
                    == ParametersError::InvalidParameters,
            },
    {
        if security_level < 3 || security_level > 32767 {
            return Err(ParametersError::InvalidParameters);
        }
        let parameters = Parameters {
            security_zk: security_level - 3,
            security_soundness: security_level - 2,
            field_size_bits: 2 * security_level,
            hash_to_prime_bits: 2 * security_level - 2,
        };
        match parameters.is_valid() {
            Ok(()) => Ok(parameters),
            Err(e) => Err(e),
        }
    }

    /// Derives the parameters achievable in a field whose modulus has
    /// `field_size_bits` bits, together with the security level reached.
    pub fn from_field_bit_length(field_size_bits: u16) -> (r: Result<
        (Parameters, u16),
        ParametersError,
    >)
        ensures
            match r {
                Ok(pl) => params_from_field_bits(field_size_bits as int) == Some(pl),
                Err(e) => params_from_field_bits(field_size_bits as int) is None && e
                    == ParametersError::InvalidParameters,
            },
    {
        let security_level: u16 = field_size_bits / 2;
        if security_level < 3 {
            return Err(ParametersError::InvalidParameters);
        }
        let parameters = Parameters {
            security_zk: security_level - 3,
            security_soundness: security_level - 2,
            field_size_bits: field_size_bits,
            hash_to_prime_bits: 2 * security_level - 2,
        };
        match parameters.is_valid() {
            Ok(()) => Ok((parameters, security_level)),
            Err(e) => Err(e),
        }
    }

    /// Derives the parameters achievable in the scalar field of BLS12-381,
    /// together with the security level reached.
    pub fn from_curve() -> (r: Result<(Parameters, u16), ParametersError>)
        ensures
            r matches Ok(pl) && params_from_field_bits(255) == Some(pl),
    {
        let bits = scalar_field_bits();
        proof {
            lemma_field_bits_round_trip(255);
        }
        Parameters::from_field_bit_length(bits as u16)
    }

    /// Checks that the field is large enough for the padded range.
    pub fn is_valid(&self) -> (r: Result<(), ParametersError>)
        ensures
            r is Ok <==> valid_parameters(*self),
            r matches Err(e) ==> e == ParametersError::InvalidParameters,
    {
        if self.hash_to_prime_bits == 0 {
            return Err(ParametersError::InvalidParameters);
        }
        let sum: u32 = self.security_zk as u32 + self.security_soundness as u32 + 2;
        let d: u64 = 1 + (sum / self.hash_to_prime_bits as u32) as u64;
        assert(d <= 131073) by {
            assert(sum as int / self.hash_to_prime_bits as int <= sum as int) by (nonlinear_arith)
                requires
                    self.hash_to_prime_bits >= 1,
                    sum >= 0,
            ;
        }
        assert(d * (self.hash_to_prime_bits as u64) <= 131073 * 65535) by (nonlinear_arith)
            requires
                d <= 131073,
                self.hash_to_prime_bits <= 65535,
        ;
        if d * (self.hash_to_prime_bits as u64) + 2 <= self.field_size_bits as u64 {
            Ok(())
        } else {
            Err(ParametersError::InvalidParameters)
        }
    }
}

/// A security level yields parameters exactly when it lies in `3..=32767`:
/// below 3 a derived field would be negative, above 32767 the field size
/// does not fit in 16 bits.
pub proof fn lemma_security_level_range(level: u16)
    ensures
        params_from_level(level as int) is Some <==> 3 <= level <= 32767,
        params_from_level(128) is Some,
{
    if 3 <= level <= 32767 {
        lemma_derived_is_valid(level as int, 2 * level as int);
    }
    lemma_derived_is_valid(128, 256);
}

/// Deriving parameters from a field size gives the security level
/// `floor(bits / 2)`, keeps the field size, and gives a tuple that passes the
/// validity check; this succeeds for every field of at least 6 bits.
pub proof fn lemma_field_bits_round_trip(field_bits: u16)
    ensures
        params_from_field_bits(field_bits as int) is Some <==> field_bits >= 6,
        params_from_field_bits(field_bits as int) matches Some((p, level)) ==> {
            &&& level == field_bits / 2
            &&& p.field_size_bits == field_bits
            &&& valid_parameters(p)
        },
{
    if field_bits >= 6 {
        lemma_derived_is_valid(field_bits as int / 2, field_bits as int);
    }
}

/// With `level >= 3` a single block suffices: `2 * level - 3 < 2 * level - 2`.
proof fn lemma_derived_is_valid(level: int, field_bits: int)
    requires
        3 <= level,
        2 * level <= u16::MAX,
        2 * level <= field_bits <= u16::MAX,
    ensures
        derived_parameters(level, field_bits) matches Some(p) && valid_parameters(p),
{
    let p = derived_parameters(level, field_bits)->Some_0;
    let num = (p.security_zk + p.security_soundness + 2) as int;
    let den = p.hash_to_prime_bits as int;
    assert(num == 2 * level - 3);
    assert(den == 2 * level - 2);
    assert(num / den == 0) by (nonlinear_arith)
        requires
            0 <= num < den,
    ;
}

} // verus!
