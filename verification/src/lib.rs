//! Core logic of a PLONK / Marlin style proof-system binding layer:
//! witness layout, evaluation-domain sizing, gate and wiring bookkeeping,
//! big-integer limb encodings, and the persisted verifier-index format.

use vstd::prelude::*;

mod bigint;
mod codec;
mod domain;
mod gates;
mod index;
mod proofs;
mod rows;
mod vindex;
mod witness;

pub use bigint::all_plain_digits;
pub use bigint::bigint_bytes_per_limb;
pub use bigint::bigint_compare;
pub use bigint::bigint_div;
pub use bigint::bigint_num_limbs;
pub use bigint::bigint_of_bytes;
pub use bigint::bigint_of_data;
pub use bigint::bigint_of_decimal_string;
pub use bigint::bigint_of_numeral;
pub use bigint::bigint_test_bit;
pub use bigint::bigint_to_bytes;
pub use bigint::biguint_nat;
pub use bigint::byte_at;
pub use bigint::bytes_of_limbs;
pub use bigint::digit_of;
pub use bigint::le8;
pub use bigint::le_bytes_value;
pub use bigint::Limbs384;
pub use bigint::limbs_value;
pub use bigint::pad48;
pub use bigint::radix_value;
pub use codec::CommData;
pub use codec::enc_index;
pub use codec::enc_vindex;
pub use codec::gate_data_eqv;
pub use codec::index_eqv;
pub use codec::index_read;
pub use codec::index_write;
pub use codec::GateData;
pub use codec::IndexData;
pub use codec::VerifierIndexData;
pub use codec::vindex_eqv;
pub use codec::vindex_read;
pub use codec::vindex_write;
pub use domain::compute_size_of_domain;
pub use domain::is_domain_size;
pub use domain::marlin_domain_sizes;
pub use gates::circuit_compile;
pub use gates::CircuitGate;
pub use gates::Col;
pub use gates::col_offset;
pub use gates::flat_index;
pub use gates::flat_index_exec;
pub use gates::Gate;
pub use gates::gate_flattened;
pub use gates::gate_rows_in_bounds;
pub use gates::gate_vector_add;
pub use gates::gate_vector_add_add1;
pub use gates::gate_vector_add_add2;
pub use gates::gate_vector_add_endomul1;
pub use gates::gate_vector_add_endomul2;
pub use gates::gate_vector_add_endomul3;
pub use gates::gate_vector_add_endomul4;
pub use gates::gate_vector_add_generic;
pub use gates::gate_vector_add_poseidon;
pub use gates::gate_vector_add_vbmul1;
pub use gates::gate_vector_add_vbmul2;
pub use gates::gate_vector_add_vbmul3;
pub use gates::gate_vector_add_zero;
pub use gates::gate_vector_wrap;
pub use gates::GateType;
pub use gates::GateWires;
pub use gates::lemma_flat_index_injective;
pub use gates::lemma_flat_index_range;
pub use gates::lemma_flat_index_surjective;
pub use gates::Wire;
pub use gates::Wires;
pub use index::index_create;
pub use index::PlonkIndex;
pub use proofs::chunk_prev_challenges;
pub use proofs::copy_vec;
pub use proofs::OpeningProof;
pub use proofs::PolyComm;
pub use proofs::prev_challenges_chunked;
pub use proofs::proof_evaluations_make;
pub use proofs::proof_make;
pub use proofs::ProofEvaluations;
pub use proofs::ProverProof;
pub use rows::csmat_inner_dim;
pub use rows::csmat_row;
pub use rows::csmat_rows;
pub use rows::csvec_ok;
pub use rows::FpCsMat;
pub use rows::mapped_pairs;
pub use rows::pair_indices;
pub use rows::pairs_sorted;
pub use rows::rows_to_csmat;
pub use rows::sort_pairs;
pub use rows::zip_pairs;
pub use vindex::ceil_log2;
pub use vindex::Domain;
pub use vindex::domain_new;
pub use vindex::verifier_index_make;
pub use vindex::VerifierIndex;
pub use witness::aux_position;
pub use witness::build_witness;
pub use witness::index_to_witness_position;
pub use witness::lemma_witness_layout_matches_positions;
pub use witness::lemma_witness_position_injective;
pub use witness::primary_position;
pub use witness::witness_position;
pub use witness::witness_row;

verus! {

/// The failure modes of index construction and proving.  Verification
/// failure is not among them: a well-formed but false proof is reported as
/// a plain `false`.
#[derive(Clone, Copy, Debug, PartialEq, Eq, Structural)]
pub enum ProtocolError {
    /// The circuit shape is unusable: no public inputs, a wire outside the
    /// domain, or no evaluation domain of sufficient smooth order.
    ConfigurationError,
    /// The witness does not fit the index's evaluation domain.
    WitnessSizeMismatch,
    /// A constraint identity fails on the given witness.
    UnsatisfiedConstraint,
    /// The reference string is too short for the circuit.
    SrsTooSmall,
}

} // verus!
