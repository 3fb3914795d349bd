//! Sizing of the FFT evaluation domains.
//!
//! A domain is a multiplicative subgroup of the scalar field whose order is
//! a power of two; one exists exactly for the powers up to the field's
//! 2-adicity.  Circuit compilation picks the smallest domain that holds the
//! constraints, and the prover's witness layout relies on the public-input
//! domain dividing the full domain exactly.

use vstd::prelude::*;
use vstd::arithmetic::power2::{
    lemma2_to64, lemma2_to64_rest, lemma_pow2_adds, lemma_pow2_strictly_increases,
    lemma_pow2_subtracts, pow2,
};
use crate::ProtocolError;

verus! {

/// `s` is the size of the smallest evaluation domain with at least `n`
/// points that the field supports: the least power of two `>= n`, with
/// exponent at most the field's 2-adicity `ta`.
pub open spec fn is_domain_size(n: nat, ta: nat, s: nat) -> bool {
    &&& s >= n
    &&& exists|k: nat| k <= ta && s == #[trigger] pow2(k)
    &&& forall|j: nat| #[trigger] pow2(j) >= n ==> s <= pow2(j)
}

/// Smallest power of two `>= num_coeffs`, or `None` when its exponent would
/// exceed the field's 2-adicity, so that no evaluation domain of sufficient
/// smooth order exists.
pub fn compute_size_of_domain(num_coeffs: usize, two_adicity: u32) -> (r: Option<usize>)
    requires
        num_coeffs <= usize::MAX / 2 + 1,
    ensures
        match r {
            Some(s) => is_domain_size(num_coeffs as nat, two_adicity as nat, s as nat)
                && s <= usize::MAX / 2 + 1,
            None => forall|k: nat| k <= two_adicity
                ==> #[trigger] pow2(k) < num_coeffs,
        },
{
    proof {
        lemma2_to64();
    }
    let mut size: usize = 1;
    let mut k: u32 = 0;
    while size < num_coeffs
        invariant
            num_coeffs <= usize::MAX / 2 + 1,
            size == pow2(k as nat),
            k > 0 ==> pow2((k - 1) as nat) < num_coeffs,
            k <= 64,
        decreases 64 - k,
    {
        proof {
            lemma_pow2_adds(k as nat, 1);
            lemma2_to64();
            lemma2_to64_rest();
            if k >= 63 {
                if k > 63 {
                    lemma_pow2_strictly_increases(63, k as nat);
                }
                assert(pow2(63) <= pow2(k as nat));
                assert(false);
            }
        }
        size = size * 2;
        k = k + 1;
    }
    proof {
        assert forall|j: nat| #[trigger] pow2(j) >= num_coeffs implies size as nat <= pow2(j) by {
            if j < k as nat {
                lemma_pow2_strictly_increases(j, (k - 1) as nat);
                if j < (k - 1) as nat {
                } else {
                    assert(j == (k - 1) as nat);
                }
                assert(pow2(j) <= pow2((k - 1) as nat));
            } else {
                if (k as nat) < j {
                    lemma_pow2_strictly_increases(k as nat, j);
                }
            }
        }
    }
    proof {
        lemma2_to64();
        lemma2_to64_rest();
        assert(usize::MAX == 0xffffffffu64 || usize::MAX == 0xffffffffffffffffu64);
        if k > 0 {
            let b: nat = if usize::MAX == 0xffffffffu64 { 31 } else { 63 };
            assert(num_coeffs <= pow2(b));
            if (k - 1) as nat >= b {
                if (k - 1) as nat > b {
                    lemma_pow2_strictly_increases(b, (k - 1) as nat);
                }
                assert(pow2(b) <= pow2((k - 1) as nat));
                assert(false);
            }
            if (k as nat) < b {
                lemma_pow2_strictly_increases(k as nat, b);
            }
            assert(pow2(k as nat) <= pow2(b));
        }
        assert(size <= usize::MAX / 2 + 1);
    }
    if k <= two_adicity {
        Some(size)
    } else {
        proof {
            assert forall|j: nat| j <= two_adicity implies #[trigger] pow2(j) < num_coeffs by {
                assert(k >= 1);
                if j < (k - 1) as nat {
                    lemma_pow2_strictly_increases(j, (k - 1) as nat);
                }
                assert(pow2(j) <= pow2((k - 1) as nat));
            }
        }
        None
    }
}

/// Domain sizes for a Marlin-style index: the full domain `h` sized to the
/// constraints, the public-input domain `x`, and their ratio.  The two are
/// powers of two, so `x` divides `h` exactly; the witness layout counts on
/// that.  A circuit with no public inputs, with fewer constraints than
/// variables or than public inputs, or too large for the field's 2-adicity,
/// is rejected as a configuration error.
pub fn marlin_domain_sizes(
    public_inputs: usize,
    vars: usize,
    num_constraints: usize,
    two_adicity: u32,
) -> (r: Result<(usize, usize, usize), ProtocolError>)
    requires
        num_constraints <= usize::MAX / 2 + 1,
    ensures
        match r {
            Ok(sizes) => {
                &&& public_inputs >= 1
                &&& vars <= num_constraints
                &&& public_inputs <= num_constraints
                &&& is_domain_size(public_inputs as nat, two_adicity as nat, sizes.0 as nat)
                &&& is_domain_size(num_constraints as nat, two_adicity as nat, sizes.1 as nat)
                &&& sizes.2 == sizes.1 as nat / sizes.0 as nat
                &&& sizes.1 == sizes.2 * sizes.0
                &&& sizes.2 >= 1
            },
            Err(e) => {
                &&& e == ProtocolError::ConfigurationError
                &&& public_inputs == 0 || vars > num_constraints
                    || public_inputs > num_constraints
                    || (forall|k: nat| k <= two_adicity ==> #[trigger] pow2(k) < public_inputs)
                    || (forall|k: nat| k <= two_adicity ==> #[trigger] pow2(k) < num_constraints)
            },
        },
{
    if public_inputs == 0 || vars > num_constraints || public_inputs > num_constraints {
        return Err(ProtocolError::ConfigurationError);
    }
    let x_size = match compute_size_of_domain(public_inputs, two_adicity) {
        Some(s) => s,
        None => {
            return Err(ProtocolError::ConfigurationError);
        },
    };
    let h_size = match compute_size_of_domain(num_constraints, two_adicity) {
        Some(s) => s,
        None => {
            return Err(ProtocolError::ConfigurationError);
        },
    };
    proof {
        let kx = choose|k: nat| k <= two_adicity && x_size as nat == #[trigger] pow2(k);
        let kh = choose|k: nat| k <= two_adicity && h_size as nat == #[trigger] pow2(k);
        assert(x_size as nat <= pow2(kh));
        if kh < kx {
            lemma_pow2_strictly_increases(kh, kx);
            assert(false);
        }
        lemma_pow2_subtracts(kx, kh);
        lemma_pow2_adds((kh - kx) as nat, kx);
    }
    let ratio = h_size / x_size;
    Ok((x_size, h_size, ratio))
}

} // verus!
