use snarky_bn382::{
    build_witness, chunk_prev_challenges, circuit_compile, compute_size_of_domain,
    gate_vector_add, gate_vector_add_generic, gate_vector_wrap, index_create,
    index_to_witness_position, marlin_domain_sizes, proof_evaluations_make, proof_make,
    rows_to_csmat, sort_pairs, csmat_row, Col, Gate, GateType, PolyComm, ProtocolError,
};

#[test]
fn witness_position_public_inputs_sit_on_multiples_of_the_ratio() {
    assert_eq!(index_to_witness_position(3, 4, 0), 0);
    assert_eq!(index_to_witness_position(3, 4, 1), 4);
    assert_eq!(index_to_witness_position(3, 4, 2), 8);
}

#[test]
fn witness_position_auxiliaries_fill_the_blocks() {
    // ratio 4: each block has 3 auxiliary rows after its public row
    assert_eq!(index_to_witness_position(3, 4, 3), 1);
    assert_eq!(index_to_witness_position(3, 4, 4), 2);
    assert_eq!(index_to_witness_position(3, 4, 5), 3);
    assert_eq!(index_to_witness_position(3, 4, 6), 5);
    assert_eq!(index_to_witness_position(3, 4, 7), 6);
    assert_eq!(index_to_witness_position(3, 4, 8), 7);
    assert_eq!(index_to_witness_position(3, 4, 9), 9);
}

#[test]
fn witness_positions_are_all_distinct() {
    let mut seen = vec![false; 16];
    for i in 0..12 {
        let p = index_to_witness_position(4, 4, i);
        assert!(!seen[p], "two variables share row {}", p);
        seen[p] = true;
    }
}

#[test]
fn build_witness_interleaves_primary_and_auxiliary() {
    let primary: Vec<u64> = vec![10, 20];
    let aux: Vec<u64> = vec![31, 32, 33, 34];
    let w = build_witness(&primary, &aux, 16, 4, 0u64, 1u64).unwrap();
    assert_eq!(w.len(), 16);
    assert_eq!(w[0], 1);
    assert_eq!(w[4], 10);
    assert_eq!(w[8], 20);
    assert_eq!(w[1], 31);
    assert_eq!(w[2], 32);
    assert_eq!(w[3], 33);
    assert_eq!(w[5], 34);
    assert_eq!(w[6], 0);
    assert_eq!(w[7], 0);
    assert_eq!(w[12], 0);
}

#[test]
fn build_witness_rejects_an_oversized_primary_input() {
    let primary: Vec<u64> = vec![1, 2, 3, 4];
    let aux: Vec<u64> = vec![];
    let r = build_witness(&primary, &aux, 8, 2, 0u64, 1u64);
    assert_eq!(r, Err(ProtocolError::WitnessSizeMismatch));
}

#[test]
fn domain_size_is_the_next_power_of_two() {
    assert_eq!(compute_size_of_domain(1, 30), Some(1));
    assert_eq!(compute_size_of_domain(2, 30), Some(2));
    assert_eq!(compute_size_of_domain(3, 30), Some(4));
    assert_eq!(compute_size_of_domain(4, 30), Some(4));
    assert_eq!(compute_size_of_domain(5, 30), Some(8));
    assert_eq!(compute_size_of_domain(1000, 30), Some(1024));
}

#[test]
fn domain_size_fails_past_the_two_adicity() {
    assert_eq!(compute_size_of_domain(5, 2), None);
    assert_eq!(compute_size_of_domain(4, 2), Some(4));
    assert_eq!(compute_size_of_domain(9, 3), None);
}

#[test]
fn marlin_domains_divide_exactly() {
    let (x, h, ratio) = marlin_domain_sizes(3, 10, 13, 30).unwrap();
    assert_eq!(x, 4);
    assert_eq!(h, 16);
    assert_eq!(ratio, 4);
    assert_eq!(ratio * x, h);
}

#[test]
fn marlin_domains_reject_a_shapeless_circuit() {
    assert_eq!(marlin_domain_sizes(0, 3, 5, 30), Err(ProtocolError::ConfigurationError));
    assert_eq!(marlin_domain_sizes(2, 9, 5, 30), Err(ProtocolError::ConfigurationError));
}

#[test]
fn gate_vector_builders_record_the_gate() {
    let mut v: Vec<Gate<u64>> = Vec::new();
    gate_vector_add(&mut v, GateType::Zero, 0, 0, Col::L, 0, Col::R, 0, Col::O, vec![]);
    gate_vector_add_generic(&mut v, 1, 0, Col::L, 1, Col::R, 1, Col::O, vec![7, 8]);
    assert_eq!(v.len(), 2);
    assert_eq!(v[0].typ, GateType::Zero);
    assert_eq!(v[1].typ, GateType::Generic);
    assert_eq!(v[1].wires.row, 1);
    assert_eq!(v[1].wires.l.row, 0);
    assert_eq!(v[1].c, vec![7, 8]);
}

#[test]
fn gate_vector_wrap_patches_one_wire() {
    let mut v: Vec<Gate<u64>> = Vec::new();
    gate_vector_add(&mut v, GateType::Generic, 0, 0, Col::L, 0, Col::R, 0, Col::O, vec![1]);
    gate_vector_add(&mut v, GateType::Generic, 1, 1, Col::L, 1, Col::R, 1, Col::O, vec![2]);
    gate_vector_wrap(&mut v, 1, Col::R, 0, Col::O);
    assert_eq!(v[1].wires.r.row, 0);
    assert_eq!(v[1].wires.r.col, Col::O);
    assert_eq!(v[1].wires.l.row, 1);
    assert_eq!(v[0].wires.r.row, 0);
}

#[test]
fn circuit_compile_flattens_the_wiring() {
    let mut v: Vec<Gate<u64>> = Vec::new();
    // two gates, one public input: domain has 4 rows
    gate_vector_add(&mut v, GateType::Generic, 0, 1, Col::R, 0, Col::L, 0, Col::O, vec![1]);
    gate_vector_add(&mut v, GateType::Generic, 1, 1, Col::L, 0, Col::R, 1, Col::O, vec![2]);
    let (gates, n) = circuit_compile(v, 1, 30).unwrap();
    assert_eq!(n, 4);
    assert_eq!(gates.len(), 2);
    // row 0: own slots (0, 4, 8); targets: l -> (1, R) = 1 + 4, r -> (0, L) = 0, o -> (0, O) = 8
    assert_eq!(gates[0].wires.l, (0, 5));
    assert_eq!(gates[0].wires.r, (4, 0));
    assert_eq!(gates[0].wires.o, (8, 8));
    // row 1: own slots (1, 5, 9); targets: l -> (1, L) = 1, r -> (0, R) = 4, o -> (1, O) = 9
    assert_eq!(gates[1].wires.l, (1, 1));
    assert_eq!(gates[1].wires.r, (5, 4));
    assert_eq!(gates[1].wires.o, (9, 9));
}

#[test]
fn circuit_compile_rejects_bad_shapes() {
    let v: Vec<Gate<u64>> = Vec::new();
    assert!(matches!(circuit_compile(v, 0, 30), Err(ProtocolError::ConfigurationError)));
    let mut v2: Vec<Gate<u64>> = Vec::new();
    // a wire pointing outside the 2-row domain
    gate_vector_add(&mut v2, GateType::Generic, 0, 7, Col::L, 0, Col::R, 0, Col::O, vec![]);
    assert!(matches!(circuit_compile(v2, 1, 30), Err(ProtocolError::ConfigurationError)));
}

#[test]
fn prev_challenges_chunk_evenly_over_the_basis_points() {
    let ch: Vec<u64> = vec![1, 2, 3, 4, 5, 6];
    let sgs: Vec<u8> = vec![10, 20];
    let out = chunk_prev_challenges(&ch, &sgs);
    assert_eq!(out.len(), 2);
    assert_eq!(out[0].0, vec![1, 2, 3]);
    assert_eq!(out[1].0, vec![4, 5, 6]);
    assert_eq!(out[0].1.unshifted, vec![10]);
    assert!(out[0].1.shifted.is_none());
    assert_eq!(out[1].1.unshifted, vec![20]);
}

#[test]
fn prev_challenges_empty_means_no_accumulator() {
    let ch: Vec<u64> = vec![];
    let sgs: Vec<u8> = vec![10];
    let out = chunk_prev_challenges(&ch, &sgs);
    assert_eq!(out.len(), 0);
}

#[test]
fn proof_make_assembles_the_parts() {
    let comm = |p: u8| PolyComm::<u8> { unshifted: vec![p], shifted: None };
    let evals0 = proof_evaluations_make(
        vec![1u64], vec![2], vec![3], vec![4], vec![5], vec![6], vec![7], vec![8]);
    let evals1 = proof_evaluations_make(
        vec![9u64], vec![10], vec![11], vec![12], vec![13], vec![14], vec![15], vec![16]);
    let public: Vec<u64> = vec![42, 43];
    let prev_ch: Vec<u64> = vec![5, 6];
    let prev_sgs: Vec<u8> = vec![77];
    let p = proof_make(
        &public, comm(1), comm(2), comm(3), comm(4), comm(5),
        vec![(100u8, 101u8)], 50u64, 51u64, 60u8, 61u8,
        evals0, evals1, &prev_ch, &prev_sgs,
    );
    assert_eq!(p.public, vec![42, 43]);
    assert_eq!(p.l_comm.unshifted, vec![1]);
    assert_eq!(p.t_comm.unshifted, vec![5]);
    assert_eq!(p.opening.lr, vec![(100, 101)]);
    assert_eq!(p.opening.z1, 50);
    assert_eq!(p.opening.sg, 61);
    assert_eq!(p.evals[0].l, vec![1]);
    assert_eq!(p.evals[1].sigma2, vec![16]);
    assert_eq!(p.prev_challenges.len(), 1);
    assert_eq!(p.prev_challenges[0].0, vec![5, 6]);
    assert_eq!(p.prev_challenges[0].1.unshifted, vec![77]);
}

#[test]
fn sort_pairs_orders_by_index_and_keeps_the_pairs() {
    let v: Vec<(usize, u64)> = vec![(5, 50), (1, 10), (4, 40), (1, 11), (3, 30)];
    let s = sort_pairs(&v);
    assert_eq!(s.len(), 5);
    assert_eq!(s[0].0, 1);
    assert_eq!(s[1].0, 1);
    assert_eq!(s[2], (3, 30));
    assert_eq!(s[3], (4, 40));
    assert_eq!(s[4], (5, 50));
    // the two index-1 pairs keep their coefficients, in either order
    let mut low: Vec<u64> = vec![s[0].1, s[1].1];
    low.sort();
    assert_eq!(low, vec![10, 11]);
}

#[test]
fn rows_to_csmat_accepts_distinct_variables() {
    // ratio 4, public 1: variables 0 (public), 1, 2 (aux) map to rows 0, 1, 2
    let rows: Vec<(Vec<usize>, Vec<u64>)> = vec![
        (vec![0, 1], vec![7, 8]),
        (vec![1, 2], vec![9, 10]),
        (vec![0, 2], vec![11, 12]),
    ];
    let m = rows_to_csmat(1, 4, &rows).unwrap();
    let (ind, dat) = csmat_row(&m, 1).unwrap();
    assert_eq!(ind, vec![1, 2]);
    assert_eq!(dat, vec![9, 10]);
    assert!(csmat_row(&m, 3).is_none());
}

#[test]
fn rows_to_csmat_sorts_coefficients_with_their_variables() {
    // ratio 4, public 1: variable 3 maps to row 3, variable 0 to row 0,
    // so the pairs reorder and each coefficient must follow its variable
    let rows: Vec<(Vec<usize>, Vec<u64>)> = vec![
        (vec![3, 0], vec![7, 8]),
        (vec![0], vec![1]),
        (vec![1], vec![2]),
        (vec![2], vec![3]),
    ];
    let m = rows_to_csmat(1, 4, &rows).unwrap();
    let (ind, dat) = csmat_row(&m, 0).unwrap();
    assert_eq!(ind, vec![0, 3]);
    assert_eq!(dat, vec![8, 7]);
}

#[test]
fn rows_to_csmat_rejects_a_repeated_variable() {
    let rows: Vec<(Vec<usize>, Vec<u64>)> = vec![(vec![1, 1], vec![7, 8])];
    assert!(matches!(rows_to_csmat(1, 4, &rows), Err(ProtocolError::ConfigurationError)));
}

#[test]
fn rows_to_csmat_rejects_a_row_outside_the_matrix() {
    // one constraint: inner dimension 1, but variable 1 maps to row 1
    let rows: Vec<(Vec<usize>, Vec<u64>)> = vec![(vec![1], vec![7])];
    assert!(matches!(rows_to_csmat(1, 4, &rows), Err(ProtocolError::ConfigurationError)));
}

#[test]
fn index_create_derives_the_extended_domains() {
    let mut v: Vec<Gate<u64>> = Vec::new();
    gate_vector_add(&mut v, GateType::Generic, 0, 0, Col::L, 0, Col::R, 0, Col::O, vec![1]);
    gate_vector_add(&mut v, GateType::Generic, 1, 1, Col::L, 1, Col::R, 1, Col::O, vec![2]);
    gate_vector_add(&mut v, GateType::Zero, 2, 2, Col::L, 2, Col::R, 2, Col::O, vec![]);
    let ix = index_create(v, 1, 30).unwrap();
    assert_eq!(ix.index_domain_d1_size(), 4);
    assert_eq!(ix.index_domain_d4_size(), 16);
    assert_eq!(ix.index_domain_d8_size(), 32);
    assert_eq!(ix.index_public_inputs(), 1);
    assert_eq!(ix.gates.len(), 3);
}

#[test]
fn circuit_compile_accepts_an_empty_gate_list() {
    let v: Vec<Gate<u64>> = Vec::new();
    let (gates, n) = circuit_compile(v, 1, 30).unwrap();
    assert_eq!(n, 1);
    assert!(gates.is_empty());
}

#[test]
fn build_witness_rejects_oversized_auxiliary_input() {
    let primary: Vec<u64> = vec![];
    let aux: Vec<u64> = vec![1, 2, 3, 4, 5, 6, 7];
    let r = build_witness(&primary, &aux, 8, 2, 0u64, 1u64);
    assert_eq!(r, Err(ProtocolError::WitnessSizeMismatch));
}
