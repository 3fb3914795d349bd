//! Mapping of logical variable indices to rows of the witness vector.
//!
//! The witness vector interleaves public inputs and auxiliary values in
//! blocks: with `r` the ratio between the full evaluation domain and the
//! public-input subdomain, public input `i` sits at row `i * r`, and the
//! auxiliary values fill the `r - 1` remaining rows of each block.

use vstd::prelude::*;
use vstd::arithmetic::div_mod::{
    lemma_fundamental_div_mod, lemma_fundamental_div_mod_converse, lemma_mod_bound,
    lemma_mod_multiples_basic,
};
use crate::ProtocolError;

verus! {

/// Row of the witness vector that holds logical variable `i`, where the
/// variables list the public inputs first and the auxiliary values after.
pub open spec fn witness_position(public_inputs: nat, h_to_x_ratio: nat, i: nat) -> nat {
    if i < public_inputs {
        i * h_to_x_ratio
    } else {
        let m = (h_to_x_ratio - 1) as nat;
        let aux_index = (i - public_inputs) as nat;
        h_to_x_ratio * (aux_index / m) + 1 + (aux_index % m)
    }
}

/// Row of the witness vector that holds public input `i` in a proof witness
/// (variable `i + 1`, after the constant-one variable at row 0).
pub open spec fn primary_position(h_to_x_ratio: nat, i: nat) -> nat {
    (1 + i) * h_to_x_ratio
}

/// Row of the witness vector holding auxiliary value `aux_index`.
pub open spec fn aux_position(h_to_x_ratio: nat, aux_index: nat) -> nat {
    let m = (h_to_x_ratio - 1) as nat;
    h_to_x_ratio * (aux_index / m) + 1 + (aux_index % m)
}

/// Maps the index of a logical variable (public inputs first, auxiliary
/// values after) to its row in the interleaved witness vector.
pub fn index_to_witness_position(public_inputs: usize, h_to_x_ratio: usize, i: usize) -> (r: usize)
    requires
        i >= public_inputs ==> h_to_x_ratio >= 2,
        witness_position(public_inputs as nat, h_to_x_ratio as nat, i as nat) <= usize::MAX,
    ensures
        r == witness_position(public_inputs as nat, h_to_x_ratio as nat, i as nat),
{
    if i < public_inputs {
        i * h_to_x_ratio
    } else {
        let m = h_to_x_ratio - 1;
        let aux_index = i - public_inputs;
        let block = aux_index / m;
        let intra_block = aux_index % m;
        h_to_x_ratio * block + 1 + intra_block
    }
}

/// An auxiliary row is never a multiple of the ratio, and both the block
/// and the offset of the auxiliary index can be recovered from the row.
proof fn lemma_aux_position_form(ratio: nat, a: nat)
    requires
        ratio >= 2,
    ensures
        aux_position(ratio, a) % ratio == 1 + a % ((ratio - 1) as nat),
        aux_position(ratio, a) / ratio == a / ((ratio - 1) as nat),
        aux_position(ratio, a) % ratio != 0,
{
    let m = (ratio - 1) as nat;
    let b = a / m;
    let t = a % m;
    lemma_mod_bound(a as int, m as int);
    let p = aux_position(ratio, a);
    assert(p == ratio * b + 1 + t);
    assert(ratio * b == b * ratio) by (nonlinear_arith);
    lemma_fundamental_div_mod_converse(p as int, ratio as int, b as int, (1 + t) as int);
}

/// Distinct variable indices occupy distinct witness rows.
pub proof fn lemma_witness_position_injective(public: nat, ratio: nat, i: nat, j: nat)
    requires
        ratio >= 2,
        i != j,
    ensures
        witness_position(public, ratio, i) != witness_position(public, ratio, j),
{
    let m = (ratio - 1) as nat;
    if i < public && j < public {
        assert(i * ratio != j * ratio) by (nonlinear_arith)
            requires i != j && ratio >= 2;
    } else if i < public && j >= public {
        lemma_mod_multiples_basic(i as int, ratio as int);
        lemma_aux_position_form(ratio, (j - public) as nat);
    } else if i >= public && j < public {
        lemma_mod_multiples_basic(j as int, ratio as int);
        lemma_aux_position_form(ratio, (i - public) as nat);
    } else {
        let a = (i - public) as nat;
        let b = (j - public) as nat;
        lemma_aux_position_form(ratio, a);
        lemma_aux_position_form(ratio, b);
        if aux_position(ratio, a) == aux_position(ratio, b) {
            assert(a % m == b % m);
            assert(a / m == b / m);
            lemma_fundamental_div_mod(a as int, m as int);
            lemma_fundamental_div_mod(b as int, m as int);
            assert(a == b);
        }
    }
}

/// The proof witness layout and the variable-position mapping agree:
/// the row `build_witness` gives public input `j` is the row of logical
/// variable `j + 1` (variable 0 being the constant one), and the row it
/// gives auxiliary value `j` is the row of logical variable
/// `public + j`.
pub proof fn lemma_witness_layout_matches_positions(public: nat, ratio: nat, j: nat)
    requires
        ratio >= 2,
    ensures
        j + 1 < public ==> primary_position(ratio, j) == witness_position(public, ratio, j + 1),
        witness_position(public, ratio, public + j) == aux_position(ratio, j),
{
    if j + 1 < public {
        assert((1 + j) * ratio == (j + 1) * ratio);
    }
    assert(((public + j) - public) as nat == j);
}

/// What `build_witness` owes: every row of the result is pinned down.
/// Row 0 holds the constant one; row `(1 + i) * r` holds public input `i`;
/// the remaining rows of each block hold the auxiliary values in order, and
/// every row not backed by an input holds zero.
pub open spec fn witness_row<F>(
    primary: Seq<F>,
    aux: Seq<F>,
    ratio: nat,
    zero: F,
    one: F,
    j: nat,
) -> F {
    let m = (ratio - 1) as nat;
    if j == 0 {
        one
    } else if j % ratio == 0 {
        if j / ratio <= primary.len() {
            primary[j / ratio - 1]
        } else {
            zero
        }
    } else {
        let a = (j / ratio) * m + (j % ratio - 1);
        if a < aux.len() {
            aux[a as int]
        } else {
            zero
        }
    }
}

/// A row that is a positive multiple of the ratio has quotient at least one.
proof fn lemma_row_quotient_pos(j: nat, ratio: nat)
    requires
        ratio >= 2,
        j != 0,
        j % ratio == 0,
    ensures
        1 <= j / ratio,
        j == ratio * (j / ratio),
{
    lemma_fundamental_div_mod(j as int, ratio as int);
}

/// Lays the public inputs and auxiliary values out into one witness vector
/// of `h_size` rows, the layout the constraint-system compiler assumes:
/// the constant one at row 0, public input `i` at row `(1 + i) * ratio`,
/// auxiliary value `a` at row `ratio * (a / (ratio-1)) + 1 + a % (ratio-1)`,
/// zero elsewhere.  Fails with `WitnessSizeMismatch` when an input does not
/// fit inside the domain.
pub fn build_witness<F: Copy>(
    primary: &Vec<F>,
    aux: &Vec<F>,
    h_size: usize,
    ratio: usize,
    zero: F,
    one: F,
) -> (r: Result<Vec<F>, ProtocolError>)
    requires
        1 <= h_size,
        2 <= ratio,
    ensures
        match r {
            Ok(w) => {
                &&& w@.len() == h_size
                &&& forall|j: nat| j < h_size ==> w@[j as int] == witness_row(
                    primary@, aux@, ratio as nat, zero, one, j)
                &&& forall|i: nat| i < primary@.len() ==> primary_position(ratio as nat, i) < h_size
                &&& forall|a: nat| a < aux@.len() ==> aux_position(ratio as nat, a) < h_size
            },
            Err(e) => {
                &&& e == ProtocolError::WitnessSizeMismatch
                &&& (exists|i: nat| i < primary@.len() && primary_position(ratio as nat, i) >= h_size)
                    || (exists|a: nat| a < aux@.len() && aux_position(ratio as nat, a) >= h_size)
            },
        },
{
    let ghost gm: nat = (ratio - 1) as nat;
    let m = ratio - 1;
    let mut w: Vec<F> = Vec::new();
    while w.len() < h_size
        invariant
            w@.len() <= h_size,
            forall|j: int| 0 <= j < w@.len() ==> w@[j] == zero,
        decreases h_size - w@.len(),
    {
        w.push(zero);
    }
    w[0] = one;
    proof {
        assert forall|j: nat| j < h_size implies w@[j as int] == witness_row(
            primary@.take(0), Seq::<F>::empty(), ratio as nat, zero, one, j) by {
            assert(primary@.take(0) =~= Seq::<F>::empty());
            if j != 0 && j % (ratio as nat) == 0 {
                lemma_row_quotient_pos(j, ratio as nat);
            }
        }
    }
    let mut i: usize = 0;
    while i < primary.len()
        invariant
            2 <= ratio,
            1 <= h_size,
            w@.len() == h_size,
            i <= primary@.len(),
            forall|k: nat| k < i ==> primary_position(ratio as nat, k) < h_size,
            forall|j: nat| j < h_size ==> w@[j as int] == witness_row(
                primary@.take(i as int), Seq::<F>::empty(), ratio as nat, zero, one, j),
        decreases primary@.len() - i,
    {
        proof {
            assert((1 + i as u128) * (ratio as u128) <= 0x10000000000000000u128
                * 0xffffffffffffffffu128) by (nonlinear_arith)
                requires i as u128 <= 0xffffffffffffffffu128
                    && ratio as u128 <= 0xffffffffffffffffu128;
        }
        let p128: u128 = (1 + i as u128) * (ratio as u128);
        if p128 >= h_size as u128 {
            proof {
                assert(p128 as nat == primary_position(ratio as nat, i as nat));
            }
            return Err(ProtocolError::WitnessSizeMismatch);
        }
        let p: usize = p128 as usize;
        let ghost wpre = w@;
        w[p] = primary[i];
        proof {
            let gi = i as nat;
            let gr = ratio as nat;
            assert(p as nat == primary_position(gr, gi));
            lemma_fundamental_div_mod_converse(p as int, gr as int, (1 + gi) as int, 0);
            assert(p as nat % gr == 0);
            assert(p as nat / gr == 1 + gi);
            assert(p != 0);
            let before = primary@.take(i as int);
            let after = primary@.take(i as int + 1);
            assert(after[i as int] == primary@[i as int]);
            assert forall|j: nat| j < h_size implies w@[j as int] == witness_row(
                after, Seq::<F>::empty(), ratio as nat, zero, one, j) by {
                if j == p as nat {
                    assert(w@[j as int] == primary@[i as int]);
                } else {
                    assert(w@[j as int] == wpre[j as int]);
                    if j != 0 && j % gr == 0 {
                        lemma_row_quotient_pos(j, gr);
                        if j / gr == 1 + gi {
                            assert(gr * (1 + gi) == (1 + gi) * gr) by (nonlinear_arith);
                            assert(j == p as nat);
                            assert(false);
                        }
                        if j / gr <= after.len() {
                            assert(before[j / gr - 1] == after[j / gr - 1]);
                        }
                    }
                }
            }
        }
        i = i + 1;
    }
    proof {
        assert(primary@.take(primary@.len() as int) =~= primary@);
    }
    let mut a: usize = 0;
    while a < aux.len()
        invariant
            2 <= ratio,
            1 <= h_size,
            m == ratio - 1,
            gm == m as nat,
            w@.len() == h_size,
            a <= aux@.len(),
            forall|k: nat| k < primary@.len() ==> primary_position(ratio as nat, k) < h_size,
            forall|k: nat| k < a ==> aux_position(ratio as nat, k) < h_size,
            forall|j: nat| j < h_size ==> w@[j as int] == witness_row(
                primary@, aux@.take(a as int), ratio as nat, zero, one, j),
        decreases aux@.len() - a,
    {
        let block: usize = a / m;
        let intra: usize = a % m;
        proof {
            assert((ratio as u128) * (block as u128) + 1 + (intra as u128)
                <= 0xffffffffffffffffu128 * 0xffffffffffffffffu128 + 1
                    + 0xffffffffffffffffu128) by (nonlinear_arith)
                requires ratio as u128 <= 0xffffffffffffffffu128
                    && block as u128 <= 0xffffffffffffffffu128
                    && intra as u128 <= 0xffffffffffffffffu128;
        }
        let p128: u128 = (ratio as u128) * (block as u128) + 1 + (intra as u128);
        proof {
            assert(block as nat == (a as nat) / gm);
            assert(intra as nat == (a as nat) % gm);
            assert(p128 as nat == aux_position(ratio as nat, a as nat));
        }
        if p128 >= h_size as u128 {
            return Err(ProtocolError::WitnessSizeMismatch);
        }
        let p: usize = p128 as usize;
        let ghost wpre = w@;
        w[p] = aux[a];
        proof {
            let ga = a as nat;
            let gr = ratio as nat;
            lemma_aux_position_form(gr, ga);
            assert(p as nat % gr == 1 + ga % gm);
            assert(p as nat % gr != 0);
            assert(p as nat / gr == ga / gm);
            let before = aux@.take(a as int);
            let after = aux@.take(a as int + 1);
            assert(after[a as int] == aux@[a as int]);
            lemma_fundamental_div_mod(ga as int, gm as int);
            assert((ga / gm) * gm + ga % gm == ga) by (nonlinear_arith)
                requires gm >= 1 && ga == gm * (ga / gm) + ga % gm;
            assert forall|j: nat| j < h_size implies w@[j as int] == witness_row(
                primary@, after, ratio as nat, zero, one, j) by {
                if j == p as nat {
                    assert(w@[j as int] == aux@[a as int]);
                } else {
                    assert(w@[j as int] == wpre[j as int]);
                    if j != 0 && j % gr != 0 {
                        let idx = (j / gr) * gm + ((j % gr - 1) as nat);
                        if idx == ga {
                            // a row backed by the same auxiliary index is the same row
                            lemma_mod_bound(j as int, gr as int);
                            lemma_fundamental_div_mod_converse(
                                ga as int, gm as int, (j / gr) as int, (j % gr - 1) as int);
                            assert(ga / gm == j / gr && ga % gm == j % gr - 1);
                            lemma_fundamental_div_mod(j as int, gr as int);
                            assert(j == gr * (j / gr) + j % gr);
                            assert(p as nat == gr * (ga / gm) + 1 + ga % gm);
                            assert(j == p as nat);
                            assert(false);
                        }
                        if idx < after.len() {
                            assert(before[idx as int] == after[idx as int]);
                        }
                    }
                }
            }
        }
        a = a + 1;
    }
    proof {
        assert(aux@.take(aux@.len() as int) =~= aux@);
    }
    Ok(w)
}

} // verus!
