//! The prover's index: the flattened circuit and its evaluation domains.
//!
//! The base domain `d1` is sized to the public inputs plus the gates; the
//! extended domains `d4` and `d8` are four and eight times that size, so
//! the higher-degree quotient polynomial fits without aliasing.  The
//! commitment scheme adds the commitments over the reference string; this
//! layer carries the sizes and the wiring.

use vstd::prelude::*;
use crate::ProtocolError;
use crate::domain::is_domain_size;
use crate::gates::{circuit_compile, gate_flattened, gate_rows_in_bounds, CircuitGate, Gate};
use vstd::arithmetic::power2::pow2;

verus! {

/// The domain-and-wiring core of a prover index.
pub struct PlonkIndex<F> {
    pub gates: Vec<CircuitGate<F>>,
    pub d1_size: usize,
    pub d4_size: usize,
    pub d8_size: usize,
    pub public: usize,
}

/// Compiles a gate list into an index core: the circuit's wiring
/// flattened over the base domain, and the three domain sizes.
pub fn index_create<F>(gates: Vec<Gate<F>>, public: usize, two_adicity: u32) -> (r: Result<
    PlonkIndex<F>,
    ProtocolError,
>)
    requires
        public + gates@.len() <= usize::MAX / 8,
    ensures
        match r {
            Ok(ix) => {
                let n = ix.d1_size as nat;
                &&& public >= 1
                &&& ix.public == public
                &&& is_domain_size((public + gates@.len()) as nat, two_adicity as nat, n)
                &&& ix.d4_size == 4 * n
                &&& ix.d8_size == 8 * n
                &&& ix.gates@.len() == gates@.len()
                &&& forall|i: int| 0 <= i < gates@.len()
                    ==> #[trigger] gate_rows_in_bounds(gates@[i], n)
                &&& forall|i: int| 0 <= i < gates@.len()
                    ==> #[trigger] gate_flattened(gates@[i], ix.gates@[i], n)
            },
            Err(e) => {
                &&& e == ProtocolError::ConfigurationError
                &&& public == 0
                    || (forall|k: nat| k <= two_adicity
                        ==> #[trigger] pow2(k) < public + gates@.len())
                    || (exists|s: nat|
                        #[trigger] is_domain_size((public + gates@.len()) as nat,
                            two_adicity as nat, s)
                        && (8 * s > usize::MAX
                            || exists|i: int| 0 <= i < gates@.len()
                                && !gate_rows_in_bounds(#[trigger] gates@[i], s)))
            },
        },
{
    let (compiled, n) = match circuit_compile(gates, public, two_adicity) {
        Ok(t) => t,
        Err(e) => {
            return Err(e);
        },
    };
    if n > usize::MAX / 8 {
        proof {
            let total = (public + gates@.len()) as nat;
            assert(is_domain_size(total, two_adicity as nat, n as nat)
                && 8 * (n as nat) > usize::MAX);
        }
        return Err(ProtocolError::ConfigurationError);
    }
    Ok(PlonkIndex {
        gates: compiled,
        d1_size: n,
        d4_size: 4 * n,
        d8_size: 8 * n,
        public,
    })
}

impl<F> PlonkIndex<F> {
    /// Size of the base evaluation domain.
    pub fn index_domain_d1_size(&self) -> (r: usize)
        ensures
            r == self.d1_size,
    {
        self.d1_size
    }

    /// Size of the 4-fold extended domain.
    pub fn index_domain_d4_size(&self) -> (r: usize)
        ensures
            r == self.d4_size,
    {
        self.d4_size
    }

    /// Size of the 8-fold extended domain.
    pub fn index_domain_d8_size(&self) -> (r: usize)
        ensures
            r == self.d8_size,
    {
        self.d8_size
    }

    /// Number of public inputs the circuit declares.
    pub fn index_public_inputs(&self) -> (r: usize)
        ensures
            r == self.public,
    {
        self.public
    }
}

} // verus!
