use vstd::prelude::*;
use vstd::arithmetic::power2::{pow2, lemma_pow2_unfold, lemma_pow2_pos, lemma_pow2_strictly_increases, lemma2_to64};
use vstd::arithmetic::div_mod::{lemma_fundamental_div_mod, lemma_small_mod};

verus! {

/// Why a bit-length circuit could not be laid out.
#[derive(Clone, Copy, Debug, PartialEq, Eq, Structural)]
pub enum CircuitError {
    /// The required bit size is zero or exceeds the field's modulus width.
    InvalidBitSize,
}

/// The integer that a big-endian bit sequence denotes.
pub open spec fn be_value(bits: Seq<bool>) -> nat
    decreases bits.len(),
{
    if bits.len() == 0 {
        0
    } else {
        (if bits[0] {
            pow2((bits.len() - 1) as nat)
        } else {
            0
        }) + be_value(bits.subrange(1, bits.len() as int))
    }
}

/// The `width`-bit big-endian decomposition of `v`.
pub open spec fn be_bits(v: nat, width: nat) -> Seq<bool>
    decreases width,
{
    if width == 0 {
        Seq::empty()
    } else {
        let half = pow2((width - 1) as nat);
        seq![(v / half) % 2 == 1] + be_bits(v % half, (width - 1) as nat)
    }
}

/// `v` has exactly `k` significant bits: `2^(k-1) <= v < 2^k`.
pub open spec fn has_bit_length(v: nat, k: nat) -> bool {
    &&& k >= 1
    &&& pow2((k - 1) as nat) <= v
    &&& v < pow2(k)
}

/// The circuit's constraint on a big-endian decomposition: all bits before
/// the last `k` are zero, and the first of the last `k` bits is one.
pub open spec fn leading_bits_constrained(bits: Seq<bool>, k: nat) -> bool {
    &&& 1 <= k <= bits.len()
    &&& forall|i: int| 0 <= i < bits.len() - k ==> !bits[i]
    &&& bits[bits.len() - k]
}

/// The values that the circuit's bits must take, from the most significant
/// bit on: `width - k` zeros, then a one.
pub open spec fn required_prefix(width: nat, k: nat) -> Seq<bool> {
    Seq::new((width - k + 1) as nat, |i: int| i == width - k)
}

/// Number of leading bits that must be zero when a value of `modulus_bits`
/// bits is to have exactly `required_bit_size` significant bits.
pub fn bits_to_skip(modulus_bits: usize, required_bit_size: u16) -> (r: Result<usize, CircuitError>)
    ensures
        match r {
            Ok(skip) => 1 <= required_bit_size <= modulus_bits && skip == modulus_bits
                - required_bit_size,
            Err(e) => (required_bit_size == 0 || required_bit_size > modulus_bits) && e
                == CircuitError::InvalidBitSize,
        },
{
    if required_bit_size == 0 || required_bit_size as usize > modulus_bits {
        Err(CircuitError::InvalidBitSize)
    } else {
        Ok(modulus_bits - required_bit_size as usize)
    }
}

/// The values that the leading bits of a `modulus_bits`-wide decomposition
/// are constrained to, most significant first.
pub fn required_leading_bits(modulus_bits: usize, required_bit_size: u16) -> (r: Result<
    Vec<bool>,
    CircuitError,
>)
    ensures
        match r {
            Ok(bits) => 1 <= required_bit_size <= modulus_bits && bits@ == required_prefix(
                modulus_bits as nat,
                required_bit_size as nat,
            ),
            Err(e) => (required_bit_size == 0 || required_bit_size > modulus_bits) && e
                == CircuitError::InvalidBitSize,
        },
{
    let skip = bits_to_skip(modulus_bits, required_bit_size)?;
    let mut out: Vec<bool> = Vec::new();
    let mut i: usize = 0;
    while i < skip
        invariant
            i <= skip,
            skip == modulus_bits - required_bit_size,
            out@ == Seq::new(i as nat, |j: int| false),
        decreases skip - i,
    {
        out.push(false);
        i = i + 1;
    }
    out.push(true);
    assert(out@ =~= required_prefix(modulus_bits as nat, required_bit_size as nat));
    Ok(out)
}

/// Whether a big-endian decomposition meets the circuit's constraint for a
/// required bit size.
pub fn bits_satisfy(bits: &Vec<bool>, required_bit_size: u16) -> (r: bool)
    ensures
        r == leading_bits_constrained(bits@, required_bit_size as nat),
{
    let skip = match bits_to_skip(bits.len(), required_bit_size) {
        Ok(s) => s,
        Err(_) => {
            return false;
        },
    };
    let mut i: usize = 0;
    while i < skip
        invariant
            i <= skip,
            skip == bits.len() - required_bit_size,
            forall|j: int| 0 <= j < i ==> !bits@[j],
        decreases skip - i,
    {
        if bits[i] {
            return false;
        }
        i = i + 1;
    }
    bits[skip]
}

proof fn lemma_be_value_bound(bits: Seq<bool>)
    ensures
        be_value(bits) < pow2(bits.len()),
    decreases bits.len(),
{
    if bits.len() > 0 {
        lemma_be_value_bound(bits.subrange(1, bits.len() as int));
        lemma_pow2_unfold(bits.len());
    } else {
        lemma_pow2_pos(0);
    }
}

proof fn lemma_true_bit_lower_bound(bits: Seq<bool>, i: int)
    requires
        0 <= i < bits.len(),
        bits[i],
    ensures
        be_value(bits) >= pow2((bits.len() - 1 - i) as nat),
    decreases i,
{
    if i > 0 {
        let tail = bits.subrange(1, bits.len() as int);
        assert(tail[i - 1] == bits[i]);
        lemma_true_bit_lower_bound(tail, i - 1);
    }
}

proof fn lemma_zero_prefix(bits: Seq<bool>, m: int)
    requires
        0 <= m <= bits.len(),
        forall|i: int| 0 <= i < m ==> !bits[i],
    ensures
        be_value(bits) == be_value(bits.subrange(m, bits.len() as int)),
    decreases m,
{
    if m > 0 {
        let tail = bits.subrange(1, bits.len() as int);
        lemma_zero_prefix(tail, m - 1);
        assert(tail.subrange(m - 1, tail.len() as int) =~= bits.subrange(m, bits.len() as int));
    } else {
        assert(bits.subrange(0, bits.len() as int) =~= bits);
    }
}

/// The circuit's constraint on a `width`-bit big-endian decomposition holds
/// exactly when the value it denotes has `k` significant bits, for every
/// `1 <= k <= width`. The decomposition need not be canonical.
pub proof fn lemma_constraint_iff_bit_length(bits: Seq<bool>, k: nat)
    requires
        1 <= k <= bits.len(),
    ensures
        leading_bits_constrained(bits, k) <==> has_bit_length(be_value(bits), k),
{
    let n = bits.len();
    let skip = n - k;
    let suffix = bits.subrange(skip, n as int);
    let rest = suffix.subrange(1, suffix.len() as int);
    lemma_be_value_bound(rest);
    lemma_be_value_bound(suffix);
    lemma_pow2_unfold(k);
    if leading_bits_constrained(bits, k) {
        lemma_zero_prefix(bits, skip);
    }
    if has_bit_length(be_value(bits), k) {
        assert forall|i: int| 0 <= i < skip implies !bits[i] by {
            if bits[i] {
                lemma_true_bit_lower_bound(bits, i);
                if (n - 1 - i) as nat > k {
                    lemma_pow2_strictly_increases(k, (n - 1 - i) as nat);
                }
            }
        }
        lemma_zero_prefix(bits, skip);
    }
}

/// The decomposition of a value below `2^width` denotes that value.
pub proof fn lemma_be_bits_round_trip(v: nat, width: nat)
    requires
        v < pow2(width),
    ensures
        be_bits(v, width).len() == width,
        be_value(be_bits(v, width)) == v,
    decreases width,
{
    if width == 0 {
        lemma2_to64();
    } else {
        let half = pow2((width - 1) as nat);
        lemma_pow2_unfold(width);
        lemma_pow2_pos((width - 1) as nat);
        lemma_fundamental_div_mod(v as int, half as int);
        lemma_be_bits_round_trip(v % half, (width - 1) as nat);
        let bits = be_bits(v, width);
        assert(bits.subrange(1, bits.len() as int) =~= be_bits(v % half, (width - 1) as nat));
        assert(v / half < 2) by (nonlinear_arith)
            requires
                v < 2 * half,
                half > 0,
        ;
        assert(bits.len() == width);
        assert(be_value(bits) == (if bits[0] {
            half
        } else {
            0
        }) + be_value(be_bits(v % half, (width - 1) as nat)));
        assert(v / half == 0 || v / half == 1);
        if v / half == 1 {
            assert(bits[0]);
            assert(v == half + v % half) by (nonlinear_arith)
                requires
                    v == half * (v / half) + v % half,
                    v / half == 1,
            ;
        } else {
            assert(!bits[0]);
            assert(v < half) by (nonlinear_arith)
                requires
                    v as int == half * (v as int / half as int) + v as int % half as int,
                    v / half == 0,
                    v % half < half,
            ;
            lemma_small_mod(v, half);
        }
    }
}

/// A value of `k` significant bits: `2^(k-1)` and `2^k - 1` meet the
/// circuit's constraint; `2^(k-1) - 1` does not, nor does `2^k` where the
/// field is wider than `k` bits.
pub proof fn lemma_bit_length_boundaries(k: nat, width: nat)
    requires
        1 <= k <= width,
    ensures
        leading_bits_constrained(be_bits(pow2((k - 1) as nat), width), k),
        !leading_bits_constrained(be_bits((pow2((k - 1) as nat) - 1) as nat, width), k),
        leading_bits_constrained(be_bits((pow2(k) - 1) as nat, width), k),
        k < width ==> !leading_bits_constrained(be_bits(pow2(k), width), k),
{
    let lo = pow2((k - 1) as nat);
    let hi = pow2(k);
    lemma_pow2_unfold(k);
    lemma_pow2_pos((k - 1) as nat);
    if k < width {
        lemma_pow2_strictly_increases(k, width);
    }
    assert(hi <= pow2(width)) by {
        if k < width {
            lemma_pow2_strictly_increases(k, width);
        }
    }
    lemma_be_bits_round_trip(lo, width);
    lemma_be_bits_round_trip((lo - 1) as nat, width);
    lemma_be_bits_round_trip((hi - 1) as nat, width);
    lemma_constraint_iff_bit_length(be_bits(lo, width), k);
    lemma_constraint_iff_bit_length(be_bits((lo - 1) as nat, width), k);
    lemma_constraint_iff_bit_length(be_bits((hi - 1) as nat, width), k);
    if k < width {
        lemma_be_bits_round_trip(hi, width);
        lemma_constraint_iff_bit_length(be_bits(hi, width), k);
    }
}

/// Constraining the leading bits of a decomposition to `required_prefix`
/// is the circuit's constraint, and so holds exactly when the value that the
/// bits denote has `k` significant bits.
pub proof fn lemma_prefix_enforces_bit_length(bits: Seq<bool>, k: nat)
    requires
        1 <= k <= bits.len(),
    ensures
        (forall|i: int|
            0 <= i < required_prefix(bits.len(), k).len() ==> bits[i] == #[trigger] required_prefix(
                bits.len(),
                k,
            )[i]) <==> leading_bits_constrained(bits, k),
        leading_bits_constrained(bits, k) <==> has_bit_length(be_value(bits), k),
{
    let plan = required_prefix(bits.len(), k);
    if leading_bits_constrained(bits, k) {
        assert forall|i: int| 0 <= i < plan.len() implies bits[i] == #[trigger] plan[i] by {
            if i < bits.len() - k {
                assert(!bits[i]);
            }
        }
    }
    if forall|i: int| 0 <= i < plan.len() ==> bits[i] == #[trigger] plan[i] {
        assert forall|i: int| 0 <= i < bits.len() - k implies !bits[i] by {
            assert(bits[i] == plan[i]);
        }
        assert(bits[bits.len() - k] == plan[bits.len() - k]);
    }
    lemma_constraint_iff_bit_length(bits, k);
}

} // verus!
