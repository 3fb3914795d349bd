use snarky_bn382::{
    bigint_bytes_per_limb, bigint_compare, bigint_div, bigint_num_limbs,
    bigint_of_bytes, bigint_of_data, bigint_of_decimal_string, bigint_of_numeral,
    bigint_test_bit, bigint_to_bytes, ceil_log2, domain_new, index_read, index_write,
    verifier_index_make, vindex_read, vindex_write, CommData, GateData, GateType,
    GateWires, IndexData, Limbs384, PolyComm, VerifierIndexData,
};

fn limbs(v: u64) -> Limbs384 {
    Limbs384 { limbs: [v, 0, 0, 0, 0, 0] }
}

#[test]
fn bigint_compare_follows_the_value() {
    let two = limbs(2);
    let three = limbs(3);
    let big = Limbs384 { limbs: [0, 1, 0, 0, 0, 0] };
    assert_eq!(bigint_compare(&two, &three), 255);
    assert_eq!(bigint_compare(&three, &two), 1);
    assert_eq!(bigint_compare(&three, &three), 0);
    // a higher limb outweighs any lower limb
    assert_eq!(bigint_compare(&Limbs384 { limbs: [u64::MAX, 0, 0, 0, 0, 0] }, &big), 255);
    assert_eq!(bigint_compare(&big, &two), 1);
}

#[test]
fn bigint_bytes_round_trip() {
    let x = Limbs384 { limbs: [0x0102030405060708, 0x1122334455667788, 9, 10, 11, 12] };
    let b = bigint_to_bytes(&x);
    assert_eq!(b.len(), 48);
    assert_eq!(b[0], 0x08);
    assert_eq!(b[7], 0x01);
    let y = bigint_of_bytes(&b);
    assert_eq!(y.limbs, x.limbs);
}

#[test]
fn bigint_of_bytes_pads_short_input() {
    let y = bigint_of_bytes(&vec![0x2a]);
    assert_eq!(y.limbs, [42, 0, 0, 0, 0, 0]);
}

#[test]
fn bigint_test_bit_reads_the_limbs() {
    let x = Limbs384 { limbs: [0b101, 1, 0, 0, 0, 0] };
    assert!(bigint_test_bit(&x, 0));
    assert!(!bigint_test_bit(&x, 1));
    assert!(bigint_test_bit(&x, 2));
    assert!(bigint_test_bit(&x, 64));
    assert!(!bigint_test_bit(&x, 65));
}

#[test]
fn bigint_div_is_the_euclidean_quotient() {
    let q = bigint_div(&limbs(10), &limbs(3));
    assert_eq!(q.limbs, [3, 0, 0, 0, 0, 0]);
    // (2^64 + 4) / 2
    let x = Limbs384 { limbs: [4, 1, 0, 0, 0, 0] };
    let q2 = bigint_div(&x, &limbs(2));
    assert_eq!(q2.limbs, [2 + (1u64 << 63), 0, 0, 0, 0, 0]);
}

#[test]
fn bigint_parses_decimal_and_hex_numerals() {
    let d = bigint_of_decimal_string(&b"1234567890".to_vec()).unwrap();
    assert_eq!(d.limbs, [1234567890, 0, 0, 0, 0, 0]);
    let h = bigint_of_numeral(&b"ff".to_vec(), 16).unwrap();
    assert_eq!(h.limbs, [255, 0, 0, 0, 0, 0]);
    let h2 = bigint_of_numeral(&b"FF".to_vec(), 16).unwrap();
    assert_eq!(h2.limbs, [255, 0, 0, 0, 0, 0]);
}

#[test]
fn bigint_shape_constants() {
    assert_eq!(bigint_num_limbs(), 6);
    assert_eq!(bigint_bytes_per_limb(), 8);
    assert_eq!(bigint_of_data(&vec![1, 2, 3, 4, 5, 6]).limbs, [1, 2, 3, 4, 5, 6]);
}

#[test]
fn ceil_log2_matches_powers_of_two() {
    assert_eq!(ceil_log2(1), 0);
    assert_eq!(ceil_log2(2), 1);
    assert_eq!(ceil_log2(3), 2);
    assert_eq!(ceil_log2(1024), 10);
}

#[test]
fn domain_new_rounds_up_and_keeps_the_generator() {
    let d = domain_new(5usize, 30, 0xabcdu64).unwrap();
    assert_eq!(d.size, 8);
    assert_eq!(d.log_size_of_group, 3);
    assert_eq!(d.group_gen, 0xabcd);
    assert!(domain_new(5usize, 2, 0u64).is_err());
}

#[test]
fn verifier_index_make_keeps_every_part() {
    let comm = |p: u8| PolyComm::<u8> { unshifted: vec![p], shifted: None };
    let v = verifier_index_make(
        8usize, 24usize, 30, 5u64,
        comm(1), comm(2), comm(3),
        comm(4), comm(5), comm(6), comm(7), comm(8),
        comm(9), comm(10), comm(11),
        comm(12), comm(13), comm(14), comm(15), comm(16), comm(17), comm(18),
        100u64, 101u64, 102u64,
    )
    .unwrap();
    assert_eq!(v.domain.size, 8);
    assert_eq!(v.domain.log_size_of_group, 3);
    assert_eq!(v.max_poly_size, 8);
    assert_eq!(v.max_quot_size, 24);
    assert_eq!(v.sigma_comm[2].unshifted, vec![3]);
    assert_eq!(v.qc_comm.unshifted, vec![8]);
    assert_eq!(v.rcm_comm[0].unshifted, vec![9]);
    assert_eq!(v.emul3_comm.unshifted, vec![18]);
    assert_eq!(v.r, 100);
    assert_eq!(v.o, 101);
    assert_eq!(v.endo, 102);
}

fn sample_index() -> VerifierIndexData {
    let comm = |p: u8, shifted: Option<Vec<u8>>| CommData {
        unshifted: vec![vec![p; 32], vec![p + 1; 32]],
        shifted,
    };
    VerifierIndexData {
        max_poly_size: 1024,
        max_quot_size: 3072,
        domain_size: 1024,
        domain_gen: vec![7; 32],
        comms: vec![
            comm(1, None),
            comm(3, Some(vec![9; 32])),
            comm(5, None),
        ],
        r: vec![13; 32],
        o: vec![14; 32],
    }
}

#[test]
fn verifier_index_round_trips_through_bytes() {
    let d = sample_index();
    let bytes = vindex_write(&d);
    let back = vindex_read(&bytes).expect("written index reads back");
    assert_eq!(back.max_poly_size, d.max_poly_size);
    assert_eq!(back.max_quot_size, d.max_quot_size);
    assert_eq!(back.domain_size, d.domain_size);
    assert_eq!(back.domain_gen, d.domain_gen);
    assert_eq!(back.comms.len(), d.comms.len());
    for (a, b) in back.comms.iter().zip(d.comms.iter()) {
        assert_eq!(a.unshifted, b.unshifted);
        assert_eq!(a.shifted, b.shifted);
    }
    assert_eq!(back.r, d.r);
    assert_eq!(back.o, d.o);
}

#[test]
fn verifier_index_read_rejects_a_damaged_buffer() {
    let d = sample_index();
    let mut bytes = vindex_write(&d);
    // trailing garbage
    let mut with_tail = bytes.clone();
    with_tail.push(0);
    assert!(vindex_read(&with_tail).is_none());
    // truncation
    bytes.pop();
    assert!(vindex_read(&bytes).is_none());
    // too short for the first count
    assert!(vindex_read(&vec![1, 2, 3]).is_none());
}

#[test]
fn bigint_numerals_truncate_past_the_width() {
    // 2^384 written in hex: one followed by 96 zero digits
    let mut digits = b"1".to_vec();
    digits.extend(std::iter::repeat(b'0').take(96));
    let x = bigint_of_numeral(&digits, 16).unwrap();
    assert_eq!(x.limbs, [0; 6]);
}

fn sample_prover_index() -> IndexData {
    IndexData {
        d1_size: 4,
        public: 1,
        gates: vec![
            GateData {
                typ: GateType::Generic,
                wires: GateWires { l: (0, 5), r: (4, 0), o: (8, 8) },
                c: vec![vec![1; 32], vec![2; 32]],
            },
            GateData {
                typ: GateType::Poseidon,
                wires: GateWires { l: (1, 1), r: (5, 4), o: (9, 9) },
                c: vec![],
            },
        ],
    }
}

#[test]
fn prover_index_round_trips_through_bytes() {
    let d = sample_prover_index();
    let bytes = index_write(&d);
    let back = index_read(&bytes).expect("written index reads back");
    assert_eq!(back.d1_size, d.d1_size);
    assert_eq!(back.public, d.public);
    assert_eq!(back.gates.len(), d.gates.len());
    for (a, b) in back.gates.iter().zip(d.gates.iter()) {
        assert_eq!(a.typ, b.typ);
        assert_eq!(a.wires, b.wires);
        assert_eq!(a.c, b.c);
    }
}

#[test]
fn prover_index_read_rejects_a_damaged_buffer() {
    let d = sample_prover_index();
    let mut bytes = index_write(&d);
    let mut with_tail = bytes.clone();
    with_tail.push(7);
    assert!(index_read(&with_tail).is_none());
    bytes.pop();
    assert!(index_read(&bytes).is_none());
    // an unknown gate tag
    let mut bad = index_write(&d);
    bad[24] = 200;
    assert!(index_read(&bad).is_none());
}
