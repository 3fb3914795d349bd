//! The verifier's side of an index: domain parameters and the commitments
//! to the fixed circuit polynomials, with none of the polynomials
//! themselves.  It is assembled either by projecting a prover index or
//! from its individually persisted parts.

use vstd::prelude::*;
use vstd::arithmetic::power2::{lemma2_to64, lemma2_to64_rest, lemma_pow2_strictly_increases, pow2};
use crate::ProtocolError;
use crate::domain::{compute_size_of_domain, is_domain_size};
use crate::proofs::PolyComm;

verus! {

/// A radix-2 evaluation domain: its size (a power of two), the exponent,
/// and a generator of the multiplicative subgroup of that order.  The
/// generator is a field element this layer carries opaquely.
pub struct Domain<F> {
    pub size: usize,
    pub log_size_of_group: u32,
    pub group_gen: F,
}

/// Exponent of the smallest power of two at least `size`.
pub fn ceil_log2(size: usize) -> (k: u32)
    requires
        1 <= size <= usize::MAX / 2 + 1,
    ensures
        pow2(k as nat) >= size,
        k > 0 ==> pow2((k - 1) as nat) < size,
        k <= 64,
{
    proof {
        lemma2_to64();
    }
    let mut s: usize = 1;
    let mut k: u32 = 0;
    #[verifier::loop_isolation(false)]
    while s < size
        invariant
            s == pow2(k as nat),
            k > 0 ==> pow2((k - 1) as nat) < size,
            k <= 64,
        decreases 64 - k,
    {
        proof {
            vstd::arithmetic::power2::lemma_pow2_adds(k as nat, 1);
            lemma2_to64();
            lemma2_to64_rest();
            assert(usize::MAX == 0xffffffffu64 || usize::MAX == 0xffffffffffffffffu64);
            if k >= 63 {
                if k > 63 {
                    lemma_pow2_strictly_increases(63, k as nat);
                }
                assert(pow2(63) <= pow2(k as nat));
                assert(false);
            }
        }
        s = s * 2;
        k = k + 1;
    }
    k
}

/// The smallest evaluation domain with at least `num_coeffs` points, with
/// the caller-supplied generator of the subgroup of that order.  Fails as
/// a configuration error when no subgroup of sufficient smooth order
/// exists within the field's 2-adicity.
pub fn domain_new<F>(num_coeffs: usize, two_adicity: u32, group_gen: F) -> (r: Result<
    Domain<F>,
    ProtocolError,
>)
    requires
        1 <= num_coeffs <= usize::MAX / 2 + 1,
    ensures
        match r {
            Ok(d) => {
                &&& is_domain_size(num_coeffs as nat, two_adicity as nat, d.size as nat)
                &&& pow2(d.log_size_of_group as nat) == d.size
                &&& d.group_gen == group_gen
            },
            Err(e) => {
                &&& e == ProtocolError::ConfigurationError
                &&& forall|k: nat| k <= two_adicity ==> #[trigger] pow2(k) < num_coeffs
            },
        },
{
    let size = match compute_size_of_domain(num_coeffs, two_adicity) {
        Some(s) => s,
        None => {
            return Err(ProtocolError::ConfigurationError);
        },
    };
    let log = ceil_log2(size);
    proof {
        let j = choose|j: nat| j <= two_adicity && size as nat == #[trigger] pow2(j);
        if (log as nat) < j {
            lemma_pow2_strictly_increases(log as nat, j);
            assert(pow2(log as nat) < size);
            assert(false);
        }
        if j < log as nat {
            assert(log > 0);
            if j < (log - 1) as nat {
                lemma_pow2_strictly_increases(j, (log - 1) as nat);
            }
            assert(pow2(j) <= pow2((log - 1) as nat));
            assert(false);
        }
        assert(pow2(log as nat) == size);
    }
    Ok(Domain { size, log_size_of_group: log, group_gen })
}

/// The verifier's index: the evaluation domain, the maximum committed
/// polynomial and quotient sizes, the commitments to the three permutation
/// polynomials, the five generic-gate selectors, the three Poseidon round
/// constant polynomials and the remaining gate selectors, the two coset
/// shifts, and the endomorphism constant used to compress scalar
/// challenges.  Curve points and field elements are carried opaquely.
pub struct VerifierIndex<G, F> {
    pub domain: Domain<F>,
    pub max_poly_size: usize,
    pub max_quot_size: usize,
    pub sigma_comm: [PolyComm<G>; 3],
    pub ql_comm: PolyComm<G>,
    pub qr_comm: PolyComm<G>,
    pub qo_comm: PolyComm<G>,
    pub qm_comm: PolyComm<G>,
    pub qc_comm: PolyComm<G>,
    pub rcm_comm: [PolyComm<G>; 3],
    pub psm_comm: PolyComm<G>,
    pub add_comm: PolyComm<G>,
    pub mul1_comm: PolyComm<G>,
    pub mul2_comm: PolyComm<G>,
    pub emul1_comm: PolyComm<G>,
    pub emul2_comm: PolyComm<G>,
    pub emul3_comm: PolyComm<G>,
    pub r: F,
    pub o: F,
    pub endo: F,
}

/// Assembles a verifier index from its individually held parts, sizing the
/// domain to `max_poly_size` with the supplied subgroup generator.  Fails
/// as a configuration error when the domain does not exist.
pub fn verifier_index_make<G, F>(
    max_poly_size: usize,
    max_quot_size: usize,
    two_adicity: u32,
    group_gen: F,
    sigma_comm0: PolyComm<G>,
    sigma_comm1: PolyComm<G>,
    sigma_comm2: PolyComm<G>,
    ql_comm: PolyComm<G>,
    qr_comm: PolyComm<G>,
    qo_comm: PolyComm<G>,
    qm_comm: PolyComm<G>,
    qc_comm: PolyComm<G>,
    rcm_comm0: PolyComm<G>,
    rcm_comm1: PolyComm<G>,
    rcm_comm2: PolyComm<G>,
    psm_comm: PolyComm<G>,
    add_comm: PolyComm<G>,
    mul1_comm: PolyComm<G>,
    mul2_comm: PolyComm<G>,
    emul1_comm: PolyComm<G>,
    emul2_comm: PolyComm<G>,
    emul3_comm: PolyComm<G>,
    r: F,
    o: F,
    endo: F,
) -> (res: Result<VerifierIndex<G, F>, ProtocolError>)
    requires
        1 <= max_poly_size <= usize::MAX / 2 + 1,
    ensures
        match res {
            Ok(v) => {
                &&& is_domain_size(max_poly_size as nat, two_adicity as nat, v.domain.size as nat)
                &&& pow2(v.domain.log_size_of_group as nat) == v.domain.size
                &&& v.domain.group_gen == group_gen
                &&& v.max_poly_size == max_poly_size
                &&& v.max_quot_size == max_quot_size
                &&& v.sigma_comm[0] == sigma_comm0
                &&& v.sigma_comm[1] == sigma_comm1
                &&& v.sigma_comm[2] == sigma_comm2
                &&& v.ql_comm == ql_comm
                &&& v.qr_comm == qr_comm
                &&& v.qo_comm == qo_comm
                &&& v.qm_comm == qm_comm
                &&& v.qc_comm == qc_comm
                &&& v.rcm_comm[0] == rcm_comm0
                &&& v.rcm_comm[1] == rcm_comm1
                &&& v.rcm_comm[2] == rcm_comm2
                &&& v.psm_comm == psm_comm
                &&& v.add_comm == add_comm
                &&& v.mul1_comm == mul1_comm
                &&& v.mul2_comm == mul2_comm
                &&& v.emul1_comm == emul1_comm
                &&& v.emul2_comm == emul2_comm
                &&& v.emul3_comm == emul3_comm
                &&& v.r == r
                &&& v.o == o
                &&& v.endo == endo
            },
            Err(e) => {
                &&& e == ProtocolError::ConfigurationError
                &&& forall|k: nat| k <= two_adicity ==> #[trigger] pow2(k) < max_poly_size
            },
        },
{
    let domain = match domain_new(max_poly_size, two_adicity, group_gen) {
        Ok(d) => d,
        Err(e) => {
            return Err(e);
        },
    };
    Ok(VerifierIndex {
        domain,
        max_poly_size,
        max_quot_size,
        sigma_comm: [sigma_comm0, sigma_comm1, sigma_comm2],
        ql_comm,
        qr_comm,
        qo_comm,
        qm_comm,
        qc_comm,
        rcm_comm: [rcm_comm0, rcm_comm1, rcm_comm2],
        psm_comm,
        add_comm,
        mul1_comm,
        mul2_comm,
        emul1_comm,
        emul2_comm,
        emul3_comm,
        r,
        o,
        endo,
    })
}

} // verus!
