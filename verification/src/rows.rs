//! Constraint rows as a compressed sparse matrix.
//!
//! A Marlin-style constraint matrix arrives as rows of `(variable indices,
//! coefficients)`, index `j` owning coefficient `j`.  Each variable index
//! is mapped to its witness row; the sparse format stores a row sorted by
//! index, so the `(index, coefficient)` pairs are sorted together — the
//! position map is not order-preserving, and sorting the indices alone
//! would hand a coefficient to the wrong variable.  The rows go into a
//! square CSR matrix held by the sparse-matrix library; its inner
//! dimension is the number of constraints.

use vstd::prelude::*;
use crate::ProtocolError;
use crate::witness::witness_position;
use vstd::multiset::Multiset;

verus! {

/// The sparse-matrix library's CSR matrix, held opaquely: its generic
/// bounds cannot be declared to the verifier, so the matrix sits in a
/// private field and is spoken of only through `csmat_rows` and
/// `csmat_inner_dim`.
#[verifier::external_body]
pub struct FpCsMat {
    mat: sprs::CsMat<u64>,
}

/// The rows the CSR matrix holds: for each outer dimension, the inner
/// indices and the values stored there.
pub uninterp spec fn csmat_rows(m: FpCsMat) -> Seq<(Seq<usize>, Seq<u64>)>;

/// The inner dimension the matrix was created with.
pub uninterp spec fn csmat_inner_dim(m: FpCsMat) -> nat;

/// The sparse-vector structure check: indices strictly increasing and,
/// for a nonempty row, the last (largest) one inside the dimension.
pub open spec fn csvec_ok(indices: Seq<usize>, dim: nat) -> bool {
    &&& forall|i: int| 0 <= i < indices.len() - 1 ==> #[trigger] indices[i] < indices[i + 1]
    &&& indices.len() == 0 || indices[indices.len() - 1] < dim
}

/// Relies on `sprs::CsMat::empty`: a CSR matrix with the given inner
/// dimension and no rows yet.
#[verifier::external_body]
fn csmat_empty(inner: usize) -> (r: FpCsMat)
    ensures
        csmat_rows(r) == Seq::<(Seq<usize>, Seq<u64>)>::empty(),
        csmat_inner_dim(r) == inner,
{
    FpCsMat { mat: sprs::CsMat::empty(sprs::CSR, inner) }
}

/// Relies on `sprs::CsMatBase::reserve_outer_dim`: allocation only, the
/// stored rows and the dimension stay as they were.
#[verifier::external_body]
fn csmat_reserve_outer_dim(m: &mut FpCsMat, outer_dim_additional: usize)
    ensures
        csmat_rows(*final(m)) == csmat_rows(*old(m)),
        csmat_inner_dim(*final(m)) == csmat_inner_dim(*old(m)),
{
    m.mat.reserve_outer_dim(outer_dim_additional)
}

/// Relies on `sprs::CsVecView::new_view` and
/// `sprs::CsMatBase::append_outer_csvec`: the view is accepted exactly
/// when the indices pass the structure check against the matrix's inner
/// dimension, and appending it adds one row holding those indices and
/// values.
#[verifier::external_body]
fn csmat_append_row(
    m: FpCsMat,
    inner: usize,
    indices: &Vec<usize>,
    data: &Vec<u64>,
) -> (r: Option<FpCsMat>)
    requires
        csmat_inner_dim(m) == inner,
        indices@.len() == data@.len(),
    ensures
        match r {
            Option::Some(m2) => {
                &&& csvec_ok(indices@, inner as nat)
                &&& csmat_rows(m2) == csmat_rows(m).push((indices@, data@))
                &&& csmat_inner_dim(m2) == inner
            },
            Option::None => !csvec_ok(indices@, inner as nat),
        },
{
    match sprs::CsVecView::<u64>::new_view(inner, indices.as_slice(), data.as_slice()) {
        Ok(view) => Some(FpCsMat { mat: m.mat.append_outer_csvec(view) }),
        Err(_) => None,
    }
}

/// Relies on `sprs::CsMatBase::outer_view` and the `indices`/`data`
/// accessors of the view it returns: for a row below the outer dimension,
/// exactly the stored indices and values of that row; nothing otherwise.
#[verifier::external_body]
fn csmat_get_row(m: &FpCsMat, k: usize) -> (r: Option<(Vec<usize>, Vec<u64>)>)
    ensures
        match r {
            Option::Some(p) => {
                &&& k < csmat_rows(*m).len()
                &&& p.0@ == csmat_rows(*m)[k as int].0
                &&& p.1@ == csmat_rows(*m)[k as int].1
            },
            Option::None => k >= csmat_rows(*m).len(),
        },
{
    m.mat.outer_view(k).map(|v| (v.indices().to_vec(), v.data().to_vec()))
}

/// One stored row of the constraint matrix: the witness-row indices and
/// the coefficients standing beside them.
pub fn csmat_row(m: &FpCsMat, k: usize) -> (r: Option<(Vec<usize>, Vec<u64>)>)
    ensures
        match r {
            Option::Some(p) => {
                &&& k < csmat_rows(*m).len()
                &&& p.0@ == csmat_rows(*m)[k as int].0
                &&& p.1@ == csmat_rows(*m)[k as int].1
            },
            Option::None => k >= csmat_rows(*m).len(),
        },
{
    csmat_get_row(m, k)
}

/// Pairs in nondecreasing order of their index.
pub open spec fn pairs_sorted(s: Seq<(usize, u64)>) -> bool {
    forall|i: int| 0 <= i < s.len() - 1 ==> (#[trigger] s[i]).0 <= s[i + 1].0
}

/// The index column of a pair sequence.
pub open spec fn pair_indices(s: Seq<(usize, u64)>) -> Seq<usize> {
    Seq::new(s.len(), |j: int| s[j].0)
}

/// Indices and values side by side as pairs.
pub open spec fn zip_pairs(a: Seq<usize>, b: Seq<u64>) -> Seq<(usize, u64)>
    recommends
        a.len() == b.len(),
{
    Seq::new(a.len(), |j: int| (a[j], b[j]))
}

/// A sorted copy of the pair vector: ordered by index, the same pairs,
/// each coefficient still beside its index.
pub fn sort_pairs(v: &Vec<(usize, u64)>) -> (r: Vec<(usize, u64)>)
    ensures
        pairs_sorted(r@),
        r@.to_multiset() == v@.to_multiset(),
        r@.len() == v@.len(),
{
    let mut rem = crate::proofs::copy_vec(v);
    let mut out: Vec<(usize, u64)> = Vec::new();
    proof {
        assert(out@.to_multiset().add(rem@.to_multiset()) =~= v@.to_multiset()) by {
            out@.to_multiset_ensures();
            rem@.to_multiset_ensures();
            assert forall|x: (usize, u64)| out@.to_multiset().count(x) == 0 by {
                assert(!out@.contains(x));
            }
            assert forall|x: (usize, u64)| out@.to_multiset().add(rem@.to_multiset()).count(x)
                == v@.to_multiset().count(x) by {}
        }
    }
    #[verifier::loop_isolation(false)]
    while rem.len() > 0
        invariant
            out@.to_multiset().add(rem@.to_multiset()) == v@.to_multiset(),
            out@.len() + rem@.len() == v@.len(),
            pairs_sorted(out@),
            forall|i: int, k: int| 0 <= i < out@.len() && 0 <= k < rem@.len()
                ==> (#[trigger] out@[i]).0 <= (#[trigger] rem@[k]).0,
        decreases rem@.len(),
    {
        let mut j: usize = 0;
        let mut t: usize = 1;
        while t < rem.len()
            invariant
                j < t <= rem@.len(),
                rem@.len() > 0,
                forall|k: int| 0 <= k < t ==> (#[trigger] rem@[k]).0 >= rem@[j as int].0,
            decreases rem@.len() - t,
        {
            if rem[t].0 < rem[j].0 {
                j = t;
            }
            t = t + 1;
        }
        let ghost rem_pre = rem@;
        let ghost out_pre = out@;
        let m = rem.remove(j);
        out.push(m);
        proof {
            rem_pre.to_multiset_ensures();
            out@.to_multiset_ensures();
            out_pre.to_multiset_ensures();
            assert(out_pre.push(m) =~= out@);
            assert(rem_pre.remove(j as int) =~= rem@);
            assert(out@.to_multiset().add(rem@.to_multiset()) =~= v@.to_multiset()) by {
                let a = out_pre.to_multiset();
                let b = rem_pre.to_multiset();
                assert(out@.to_multiset() =~= a.insert(m));
                assert(rem@.to_multiset() =~= b.remove(m));
                assert(b.count(m) >= 1) by {
                    assert(rem_pre[j as int] == m);
                    assert(rem_pre.contains(m));
                }
                assert forall|x: (usize, u64)| a.insert(m).add(b.remove(m)).count(x)
                    == a.add(b).count(x) by {}
                assert(a.insert(m).add(b.remove(m)) =~= a.add(b));
            }
            assert forall|i: int, k: int| 0 <= i < out@.len() && 0 <= k < rem@.len()
                implies (#[trigger] out@[i]).0 <= (#[trigger] rem@[k]).0 by {
                if i < out@.len() - 1 {
                    assert(out@[i] == out_pre[i]);
                }
                assert(rem@[k] == if k < j { rem_pre[k] } else { rem_pre[k + 1] });
            }
        }
    }
    proof {
        assert forall|x: (usize, u64)| rem@.to_multiset().count(x) == 0 by {
            rem@.to_multiset_ensures();
            assert(!rem@.contains(x));
        }
        assert(out@.to_multiset() =~= v@.to_multiset()) by {
            assert forall|x: (usize, u64)| out@.to_multiset().count(x)
                == v@.to_multiset().count(x) by {
                assert(out@.to_multiset().add(rem@.to_multiset()).count(x)
                    == v@.to_multiset().count(x));
            }
        }
        assert(out@.len() == v@.len()) by {
            out@.to_multiset_ensures();
            v@.to_multiset_ensures();
        }
    }
    out
}

/// One constraint row with its variables mapped to witness rows: the pair
/// at `j` is the witness row of variable `ind[j]` beside coefficient
/// `coeff[j]`.
pub open spec fn mapped_pairs(
    public_inputs: nat,
    ratio: nat,
    ind: Seq<usize>,
    coeff: Seq<u64>,
) -> Seq<(usize, u64)> {
    Seq::new(ind.len(), |j: int| (witness_position(public_inputs, ratio,
        ind[j] as nat) as usize, coeff[j]))
}

/// Maps each variable index of a constraint row to its witness row,
/// keeping its coefficient beside it.
fn map_row(
    public_inputs: usize,
    h_to_x_ratio: usize,
    ind: &Vec<usize>,
    coeff: &Vec<u64>,
) -> (r: Vec<(usize, u64)>)
    requires
        h_to_x_ratio >= 2,
        ind@.len() == coeff@.len(),
        forall|j: int| 0 <= j < ind@.len()
            ==> witness_position(public_inputs as nat, h_to_x_ratio as nat,
                #[trigger] ind@[j] as nat) <= usize::MAX,
    ensures
        r@ == mapped_pairs(public_inputs as nat, h_to_x_ratio as nat, ind@, coeff@),
{
    let mut out: Vec<(usize, u64)> = Vec::new();
    let mut j: usize = 0;
    #[verifier::loop_isolation(false)]
    while j < ind.len()
        invariant
            j <= ind@.len(),
            out@.len() == j,
            forall|k: int| 0 <= k < j ==> out@[k] == (witness_position(public_inputs as nat,
                h_to_x_ratio as nat, #[trigger] ind@[k] as nat) as usize, coeff@[k]),
        decreases ind@.len() - j,
    {
        let p = crate::witness::index_to_witness_position(public_inputs, h_to_x_ratio, ind[j]);
        out.push((p, coeff[j]));
        j = j + 1;
    }
    proof {
        assert(out@ =~= mapped_pairs(public_inputs as nat, h_to_x_ratio as nat, ind@, coeff@));
    }
    out
}

/// Builds the square CSR constraint matrix: one row per constraint, each
/// variable index mapped to its witness row with its coefficient kept
/// beside it, the pairs sorted by witness row as the sparse format
/// demands.  A row whose mapped indices repeat a witness row or leave the
/// matrix dimension is a configuration error.
pub fn rows_to_csmat(
    public_inputs: usize,
    h_to_x_ratio: usize,
    v: &Vec<(Vec<usize>, Vec<u64>)>,
) -> (r: Result<FpCsMat, ProtocolError>)
    requires
        h_to_x_ratio >= 2,
        forall|k: int, j: int| 0 <= k < v@.len() && 0 <= j < (#[trigger] v@[k]).0@.len()
            ==> witness_position(public_inputs as nat, h_to_x_ratio as nat,
                #[trigger] v@[k].0@[j] as nat) <= usize::MAX,
        forall|k: int| 0 <= k < v@.len() ==> (#[trigger] v@[k]).0@.len() == v@[k].1@.len(),
    ensures
        match r {
            Result::Ok(m) => {
                &&& csmat_inner_dim(m) == v@.len()
                &&& csmat_rows(m).len() == v@.len()
                &&& forall|k: int| 0 <= k < v@.len() ==> {
                    let row = #[trigger] csmat_rows(m)[k];
                    &&& row.0.len() == v@[k].0@.len()
                    &&& row.1.len() == v@[k].0@.len()
                    &&& csvec_ok(row.0, v@.len() as nat)
                    &&& zip_pairs(row.0, row.1).to_multiset() == mapped_pairs(
                        public_inputs as nat, h_to_x_ratio as nat, v@[k].0@,
                        v@[k].1@).to_multiset()
                }
            },
            Result::Err(e) => {
                &&& e == ProtocolError::ConfigurationError
                &&& exists|k: int, srt: Seq<(usize, u64)>| 0 <= k < v@.len()
                    && #[trigger] pairs_sorted(srt)
                    && srt.to_multiset() == mapped_pairs(public_inputs as nat,
                        h_to_x_ratio as nat, (#[trigger] v@[k]).0@, v@[k].1@).to_multiset()
                    && !csvec_ok(pair_indices(srt), v@.len() as nat)
            },
        },
{
    let constraints = v.len();
    let mut m = csmat_empty(constraints);
    csmat_reserve_outer_dim(&mut m, constraints);
    let mut k: usize = 0;
    #[verifier::loop_isolation(false)]
    while k < v.len()
        invariant
            csmat_inner_dim(m) == constraints,
            csmat_rows(m).len() == k,
            k <= v@.len(),
            forall|q: int| 0 <= q < k ==> {
                let row = #[trigger] csmat_rows(m)[q];
                &&& row.0.len() == v@[q].0@.len()
                &&& row.1.len() == v@[q].0@.len()
                &&& csvec_ok(row.0, constraints as nat)
                &&& zip_pairs(row.0, row.1).to_multiset() == mapped_pairs(
                    public_inputs as nat, h_to_x_ratio as nat, v@[q].0@,
                    v@[q].1@).to_multiset()
            },
        decreases v@.len() - k,
    {
        let mapped = map_row(public_inputs, h_to_x_ratio, &v[k].0, &v[k].1);
        let sorted = sort_pairs(&mapped);
        let (ind, dat) = unzip_pairs(&sorted);
        m = match csmat_append_row(m, constraints, &ind, &dat) {
            Option::Some(m2) => {
                proof {
                    assert(zip_pairs(ind@, dat@) =~= sorted@);
                }
                m2
            },
            Option::None => {
                proof {
                    assert(pair_indices(sorted@) =~= ind@);
                    assert(0 <= k < v@.len() && pairs_sorted(sorted@)
                        && sorted@.to_multiset() == mapped_pairs(public_inputs as nat,
                            h_to_x_ratio as nat, v@[k as int].0@,
                            v@[k as int].1@).to_multiset()
                        && !csvec_ok(pair_indices(sorted@), v@.len() as nat));
                }
                return Err(ProtocolError::ConfigurationError);
            },
        };
        k = k + 1;
    }
    Ok(m)
}

/// Splits a pair vector into its index and value columns.
fn unzip_pairs(v: &Vec<(usize, u64)>) -> (r: (Vec<usize>, Vec<u64>))
    ensures
        r.0@.len() == v@.len(),
        r.1@.len() == v@.len(),
        forall|j: int| 0 <= j < v@.len() ==> r.0@[j] == (#[trigger] v@[j]).0
            && r.1@[j] == v@[j].1,
{
    let mut ind: Vec<usize> = Vec::new();
    let mut dat: Vec<u64> = Vec::new();
    let mut j: usize = 0;
    #[verifier::loop_isolation(false)]
    while j < v.len()
        invariant
            j <= v@.len(),
            ind@.len() == j,
            dat@.len() == j,
            forall|q: int| 0 <= q < j ==> ind@[q] == (#[trigger] v@[q]).0
                && dat@[q] == v@[q].1,
        decreases v@.len() - j,
    {
        ind.push(v[j].0);
        dat.push(v[j].1);
        j = j + 1;
    }
    (ind, dat)
}

} // verus!
